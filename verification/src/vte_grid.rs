//! VTE terminal grid. Parses VT100 escape sequences and maintains a screen
//! character matrix for `read --screen`.
//!
//! This grid tracks character positions only: it does not keep SGR
//! attributes (colors, bold, underline, etc.).
use crate::text::{decimal, push_char, push_decimal};
use vstd::prelude::*;

verus! {

#[derive(Clone, Copy, Debug)]
pub struct Cell {
    pub ch: char,
}

impl Default for Cell {
    fn default() -> (c: Self)
        ensures
            c.ch == ' ',
    {
        Cell { ch: ' ' }
    }
}

/// One parser event that changes the grid: a printed character, a C0
/// control byte, or a CSI sequence with the first value of each parameter.
pub enum VtAction {
    Print(char),
    Execute(u8),
    Csi { params: Vec<Option<u16>>, action: char },
}

/// A parser event as plain values.
pub enum VtStep {
    Print(char),
    Execute(u8),
    Csi(Seq<Option<u16>>, char),
}

pub open spec fn action_view(a: VtAction) -> VtStep {
    match a {
        VtAction::Print(c) => VtStep::Print(c),
        VtAction::Execute(b) => VtStep::Execute(b),
        VtAction::Csi { params, action } => VtStep::Csi(params@, action),
    }
}

/// The events that a fresh `vte` parser reports for `bytes` (its `print`,
/// `execute` and `csi_dispatch` callbacks, in order).
pub uninterp spec fn vt_parse(bytes: Seq<u8>) -> Seq<VtStep>;

/// The parameter list that `vte` hands to `csi_dispatch`.
#[verifier::external_type_specification]
#[verifier::external_body]
pub struct ExVteParams(vte::Params);

/// Records the callbacks of the `vte` parser as plain values.
struct ActionSink {
    actions: Vec<VtAction>,
}

impl vte::Perform for ActionSink {
    #[verifier::external_body]
    fn print(&mut self, c: char) {
        self.actions.push(VtAction::Print(c));
    }

    #[verifier::external_body]
    fn execute(&mut self, byte: u8) {
        self.actions.push(VtAction::Execute(byte));
    }

    #[verifier::external_body]
    fn csi_dispatch(
        &mut self,
        params: &vte::Params,
        _intermediates: &[u8],
        _ignore: bool,
        action: char,
    ) {
        let values = params.iter().map(|p| p.first().copied()).collect();
        self.actions.push(VtAction::Csi { params: values, action });
    }
}

/// Runs a fresh `vte::Parser` (`Parser::new`, then `Parser::advance` on
/// each byte) and returns the events it reports, which are `vt_parse` of
/// the bytes.
#[verifier::external_body]
fn parse_vt(bytes: &[u8]) -> (r: Vec<VtAction>)
    ensures
        r@.map_values(|a: VtAction| action_view(a)) == vt_parse(bytes@),
{
    let mut sink = ActionSink { actions: Vec::new() };
    let mut parser = vte::Parser::new();
    for &byte in bytes {
        parser.advance(&mut sink, byte);
    }
    sink.actions
}

/// The grid as plain values: its size, the characters of each row, and the
/// cursor (row, column), 0-based.
pub struct GridView {
    pub rows: nat,
    pub cols: nat,
    pub cells: Seq<Seq<char>>,
    pub row: nat,
    pub col: nat,
}

pub open spec fn blank_row(cols: nat) -> Seq<char> {
    Seq::new(cols, |i: int| ' ')
}

pub open spec fn blank_grid(rows: nat, cols: nat) -> Seq<Seq<char>> {
    Seq::new(rows, |i: int| blank_row(cols))
}

/// `line` with the cells in `lo..hi` blanked.
pub open spec fn blank_span(line: Seq<char>, lo: int, hi: int) -> Seq<char> {
    Seq::new(line.len(), |k: int| if lo <= k < hi { ' ' } else { line[k] })
}

pub open spec fn spec_line_feed(g: GridView) -> GridView {
    if g.row + 1 >= g.rows {
        GridView { cells: g.cells.drop_first().push(blank_row(g.cols)), ..g }
    } else {
        GridView { row: g.row + 1, ..g }
    }
}

pub open spec fn spec_put_char(g: GridView, c: char) -> GridView {
    if g.row >= g.rows || g.col >= g.cols {
        g
    } else {
        let cells = g.cells.update(g.row as int, g.cells[g.row as int].update(g.col as int, c));
        if g.col + 1 >= g.cols {
            spec_line_feed(GridView { cells, col: 0, ..g })
        } else {
            GridView { cells, col: g.col + 1, ..g }
        }
    }
}

pub open spec fn spec_execute(g: GridView, b: u8) -> GridView {
    if b == 0x0a {
        spec_line_feed(g)
    } else if b == 0x0d {
        GridView { col: 0, ..g }
    } else if b == 0x08 {
        if g.col > 0 {
            GridView { col: (g.col - 1) as nat, ..g }
        } else {
            g
        }
    } else if b == 0x09 {
        let next = (g.col / 8 + 1) * 8;
        GridView {
            col: if next < g.cols - 1 {
                next
            } else {
                (g.cols - 1) as nat
            },
            ..g
        }
    } else {
        g
    }
}

/// The first value of parameter `i`, or `default` when it is missing.
pub open spec fn param(ps: Seq<Option<u16>>, i: int, default: nat) -> nat {
    if 0 <= i < ps.len() && ps[i] is Some {
        ps[i]->0 as nat
    } else {
        default
    }
}

pub open spec fn sat_sub(a: nat, b: nat) -> nat {
    if a >= b {
        (a - b) as nat
    } else {
        0
    }
}

pub open spec fn min_nat(a: nat, b: int) -> nat {
    if a < b {
        a
    } else {
        b as nat
    }
}

pub open spec fn spec_csi(g: GridView, ps: Seq<Option<u16>>, action: char) -> GridView {
    if action == 'H' || action == 'f' {
        GridView {
            row: min_nat(sat_sub(param(ps, 0, 1), 1), g.rows - 1),
            col: min_nat(sat_sub(param(ps, 1, 1), 1), g.cols - 1),
            ..g
        }
    } else if action == 'A' {
        GridView { row: sat_sub(g.row, param(ps, 0, 1)), ..g }
    } else if action == 'B' {
        GridView { row: min_nat(g.row + param(ps, 0, 1), g.rows - 1), ..g }
    } else if action == 'C' {
        GridView { col: min_nat(g.col + param(ps, 0, 1), g.cols - 1), ..g }
    } else if action == 'D' {
        GridView { col: sat_sub(g.col, param(ps, 0, 1)), ..g }
    } else if action == 'J' {
        let mode = param(ps, 0, 0);
        if mode == 0 {
            let cells = Seq::new(
                g.cells.len(),
                |r: int|
                    if r == g.row {
                        blank_span(g.cells[r], g.col as int, g.cols as int)
                    } else if r > g.row {
                        blank_row(g.cols)
                    } else {
                        g.cells[r]
                    },
            );
            GridView { cells, ..g }
        } else if mode == 1 {
            let cells = Seq::new(
                g.cells.len(),
                |r: int|
                    if r == g.row {
                        blank_span(g.cells[r], 0, g.col + 1int)
                    } else if r < g.row {
                        blank_row(g.cols)
                    } else {
                        g.cells[r]
                    },
            );
            GridView { cells, ..g }
        } else if mode == 2 {
            GridView { cells: blank_grid(g.rows, g.cols), ..g }
        } else {
            g
        }
    } else if action == 'K' {
        let mode = param(ps, 0, 0);
        let line = g.cells[g.row as int];
        if g.row >= g.rows {
            g
        } else if mode == 0 {
            GridView {
                cells: g.cells.update(g.row as int, blank_span(line, g.col as int, g.cols as int)),
                ..g
            }
        } else if mode == 1 {
            GridView { cells: g.cells.update(g.row as int, blank_span(line, 0, g.col + 1int)), ..g }
        } else if mode == 2 {
            GridView { cells: g.cells.update(g.row as int, blank_row(g.cols)), ..g }
        } else {
            g
        }
    } else {
        g
    }
}

pub open spec fn spec_step(g: GridView, s: VtStep) -> GridView {
    match s {
        VtStep::Print(c) => spec_put_char(g, c),
        VtStep::Execute(b) => spec_execute(g, b),
        VtStep::Csi(ps, a) => spec_csi(g, ps, a),
    }
}

/// Whether applying this event to a grid of `rows` x `cols` fails: it moves
/// the cursor to the last row or column, or feeds a line, or blanks a cell
/// under the cursor, where there is no such row or column.
pub open spec fn step_panics(rows: nat, cols: nat, s: VtStep) -> bool {
    match s {
        VtStep::Print(_) => false,
        VtStep::Execute(b) => (b == 0x0a && rows == 0) || (b == 0x09 && cols == 0),
        VtStep::Csi(ps, a) => {
            if a == 'H' || a == 'f' {
                rows == 0 || cols == 0
            } else if a == 'B' {
                rows == 0
            } else if a == 'C' {
                cols == 0
            } else if a == 'J' || a == 'K' {
                let mode = param(ps, 0, 0);
                if mode == 1 {
                    rows == 0 || cols == 0
                } else if mode == 0 || (a == 'K' && mode == 2) {
                    rows == 0 && cols > 0
                } else {
                    false
                }
            } else {
                false
            }
        },
    }
}

/// Whether every one of these events can be applied to a grid of
/// `rows` x `cols`.
pub open spec fn steps_safe(rows: nat, cols: nat, steps: Seq<VtStep>) -> bool {
    forall|i: int| 0 <= i < steps.len() ==> !step_panics(rows, cols, #[trigger] steps[i])
}

/// A grid with at least one row and one column takes every event.
pub proof fn lemma_sized_grid_takes_all(rows: nat, cols: nat, steps: Seq<VtStep>)
    requires
        rows > 0,
        cols > 0,
    ensures
        steps_safe(rows, cols, steps),
{
}

/// The grid after the events `steps`, in order.
pub open spec fn spec_steps(g: GridView, steps: Seq<VtStep>) -> GridView
    decreases steps.len(),
{
    if steps.len() == 0 {
        g
    } else {
        spec_steps(spec_step(g, steps[0]), steps.drop_first())
    }
}

/// A grid of `rows` x `cols` blank cells, the cursor in the top-left corner.
pub open spec fn empty_grid(rows: nat, cols: nat) -> GridView {
    GridView { rows, cols, cells: blank_grid(rows, cols), row: 0, col: 0 }
}

/// The whitespace that `str::trim_end` removes (`char::is_whitespace`).
pub open spec fn is_white(c: char) -> bool {
    let u = c as u32;
    (0x09 <= u <= 0x0d) || u == 0x20 || u == 0x85 || u == 0xa0 || u == 0x1680 || (0x2000 <= u
        <= 0x200a) || u == 0x2028 || u == 0x2029 || u == 0x202f || u == 0x205f || u == 0x3000
}

/// `line` without its trailing whitespace.
pub open spec fn trim_end(line: Seq<char>) -> Seq<char>
    decreases line.len(),
{
    if line.len() > 0 && is_white(line.last()) {
        trim_end(line.drop_last())
    } else {
        line
    }
}

/// Each row's characters without trailing whitespace.
pub open spec fn screen_lines(g: GridView) -> Seq<Seq<char>> {
    g.cells.map_values(|line: Seq<char>| trim_end(line))
}

/// The rows' UTF-8 bytes joined by `\n`.
pub open spec fn joined_lines(lines: Seq<Seq<char>>) -> Seq<u8>
    decreases lines.len(),
{
    if lines.len() == 0 {
        Seq::empty()
    } else if lines.len() == 1 {
        vstd::utf8::encode_utf8(lines[0])
    } else {
        joined_lines(lines.drop_last()) + seq![0x0au8] + vstd::utf8::encode_utf8(lines.last())
    }
}

/// Home + clear, the trimmed rows joined by newlines, then the cursor
/// placed with a 1-based CUP sequence.
pub open spec fn spec_full_redraw(g: GridView) -> Seq<u8> {
    seq![0x1bu8, 0x5bu8, 0x48u8, 0x1bu8, 0x5bu8, 0x32u8, 0x4au8] + joined_lines(screen_lines(g))
        + seq![0x1bu8, 0x5bu8] + decimal(g.row + 1) + seq![0x3bu8] + decimal(g.col + 1) + seq![
        0x48u8,
    ]
}

pub struct VteGrid {
    rows: usize,
    cols: usize,
    grid: Vec<Vec<Cell>>,
    cursor_row: usize,
    cursor_col: usize,
}

pub open spec fn row_chars(row: Vec<Cell>) -> Seq<char> {
    row@.map_values(|c: Cell| c.ch)
}

pub open spec fn grid_chars(grid: Seq<Vec<Cell>>) -> Seq<Seq<char>> {
    grid.map_values(|row: Vec<Cell>| row_chars(row))
}

pub open spec fn grid_shape_ok(g: GridView) -> bool {
    &&& g.cells.len() == g.rows
    &&& forall|r: int| 0 <= r < g.rows ==> (#[trigger] g.cells[r]).len() == g.cols
    &&& (g.row < g.rows || (g.rows == 0 && g.row == 0))
    &&& (g.col < g.cols || (g.cols == 0 && g.col == 0))
}

pub proof fn lemma_chars_push(s: Seq<Cell>, c: Cell)
    ensures
        s.push(c).map_values(|c: Cell| c.ch) == s.map_values(|c: Cell| c.ch).push(c.ch),
{
    assert(s.push(c).map_values(|c: Cell| c.ch) =~= s.map_values(|c: Cell| c.ch).push(c.ch));
}

pub proof fn lemma_grid_chars_push(g: Seq<Vec<Cell>>, row: Vec<Cell>)
    ensures
        grid_chars(g.push(row)) == grid_chars(g).push(row_chars(row)),
{
    assert(grid_chars(g.push(row)) =~= grid_chars(g).push(row_chars(row)));
}

fn new_grid(rows: usize, cols: usize) -> (g: Vec<Vec<Cell>>)
    ensures
        grid_chars(g@) == blank_grid(rows as nat, cols as nat),
{
    let mut g: Vec<Vec<Cell>> = Vec::new();
    let mut r: usize = 0;
    while r < rows
        invariant
            0 <= r <= rows,
            grid_chars(g@) == blank_grid(r as nat, cols as nat),
        decreases rows - r,
    {
        let mut line: Vec<Cell> = Vec::new();
        let mut c: usize = 0;
        while c < cols
            invariant
                0 <= c <= cols,
                row_chars(line) == blank_row(c as nat),
            decreases cols - c,
        {
            let ghost prev = line@;
            line.push(Cell { ch: ' ' });
            c = c + 1;
            proof {
                lemma_chars_push(prev, Cell { ch: ' ' });
                assert(blank_row((c - 1) as nat).push(' ') =~= blank_row(c as nat));
            }
        }
        let ghost prev_g = g@;
        g.push(line);
        r = r + 1;
        proof {
            lemma_grid_chars_push(prev_g, line);
            assert(blank_grid((r - 1) as nat, cols as nat).push(blank_row(cols as nat))
                =~= blank_grid(r as nat, cols as nat));
        }
    }
    g
}

impl VteGrid {
    pub closed spec fn view(&self) -> GridView {
        GridView {
            rows: self.rows as nat,
            cols: self.cols as nat,
            cells: grid_chars(self.grid@),
            row: self.cursor_row as nat,
            col: self.cursor_col as nat,
        }
    }

    pub closed spec fn wf(&self) -> bool {
        &&& grid_shape_ok(self.view())
        &&& self.rows <= 65535
        &&& self.cols <= 65535
    }

    pub fn new(rows: u16, cols: u16) -> (g: Self)
        ensures
            g.wf(),
            g.view() == empty_grid(rows as nat, cols as nat),
    {
        let rows = rows as usize;
        let cols = cols as usize;
        VteGrid { rows, cols, grid: new_grid(rows, cols), cursor_row: 0, cursor_col: 0 }
    }

    /// The number of screen rows.
    pub fn rows(&self) -> (r: usize)
        ensures
            r == self.view().rows,
    {
        self.rows
    }

    /// The number of screen columns.
    pub fn cols(&self) -> (c: usize)
        ensures
            c == self.view().cols,
    {
        self.cols
    }

    /// Return cursor position (row, col).
    pub fn cursor(&self) -> (c: (usize, usize))
        ensures
            c.0 == self.view().row,
            c.1 == self.view().col,
    {
        (self.cursor_row, self.cursor_col)
    }

    /// Resize the grid: the contents are cleared and the cursor is kept,
    /// pulled back inside the new bounds.
    pub fn resize(&mut self, new_rows: u16, new_cols: u16)
        requires
            old(self).wf(),
        ensures
            final(self).wf(),
            final(self).view() == (GridView {
                rows: new_rows as nat,
                cols: new_cols as nat,
                cells: blank_grid(new_rows as nat, new_cols as nat),
                row: if old(self).view().row >= new_rows {
                    sat_sub(new_rows as nat, 1)
                } else {
                    old(self).view().row
                },
                col: if old(self).view().col >= new_cols {
                    sat_sub(new_cols as nat, 1)
                } else {
                    old(self).view().col
                },
            }),
    {
        let new_rows = new_rows as usize;
        let new_cols = new_cols as usize;
        self.rows = new_rows;
        self.cols = new_cols;
        self.grid = new_grid(new_rows, new_cols);
        if self.cursor_row >= new_rows {
            self.cursor_row = if new_rows > 0 {
                new_rows - 1
            } else {
                0
            };
        }
        if self.cursor_col >= new_cols {
            self.cursor_col = if new_cols > 0 {
                new_cols - 1
            } else {
                0
            };
        }
    }
}

impl VteGrid {
    /// Sets the cell at (`r`, `c`).
    fn set_cell(&mut self, r: usize, c: usize, ch: char)
        requires
            old(self).wf(),
            r < old(self).view().rows,
            c < old(self).view().cols,
        ensures
            final(self).wf(),
            final(self).view() == (GridView {
                cells: old(self).view().cells.update(
                    r as int,
                    old(self).view().cells[r as int].update(c as int, ch),
                ),
                ..old(self).view()
            }),
    {
        let ghost old_grid = self.grid@;
        self.grid[r].set(c, Cell { ch });
        proof {
            let new_row = self.grid@[r as int];
            assert(row_chars(new_row) =~= row_chars(old_grid[r as int]).update(c as int, ch));
            assert(grid_chars(self.grid@) =~= grid_chars(old_grid).update(
                r as int,
                row_chars(old_grid[r as int]).update(c as int, ch),
            ));
        }
    }

    /// Blanks the cells `lo..hi` of row `r`.
    fn clear_span(&mut self, r: usize, lo: usize, hi: usize)
        requires
            old(self).wf(),
            r < old(self).view().rows,
            lo <= hi <= old(self).view().cols,
        ensures
            final(self).wf(),
            final(self).view() == (GridView {
                cells: old(self).view().cells.update(
                    r as int,
                    blank_span(old(self).view().cells[r as int], lo as int, hi as int),
                ),
                ..old(self).view()
            }),
    {
        let ghost line = self.view().cells[r as int];
        let mut k = lo;
        assert(blank_span(line, lo as int, lo as int) =~= line);
        assert(self.view().cells.update(r as int, line) =~= self.view().cells);
        while k < hi
            invariant
                self.wf(),
                lo <= k <= hi <= self.view().cols,
                r < self.view().rows,
                self.view() == (GridView {
                    cells: old(self).view().cells.update(
                        r as int,
                        blank_span(line, lo as int, k as int),
                    ),
                    ..old(self).view()
                }),
                line == old(self).view().cells[r as int],
                line.len() == self.view().cols,
                old(self).view().cells.len() == old(self).view().rows,
                r < old(self).view().rows,
            decreases hi - k,
        {
            self.set_cell(r, k, ' ');
            k = k + 1;
            assert(blank_span(line, lo as int, (k - 1) as int).update((k - 1) as int, ' ')
                =~= blank_span(line, lo as int, k as int));
            assert(old(self).view().cells.update(r as int, blank_span(line, lo as int, (k - 1) as int)).update(
                r as int,
                blank_span(line, lo as int, k as int),
            ) =~= old(self).view().cells.update(r as int, blank_span(line, lo as int, k as int)));
        }
    }

    /// Moves the cursor down one row, scrolling the grid up by one row when
    /// the cursor is on the last row.
    fn line_feed(&mut self)
        requires
            old(self).wf(),
            old(self).view().rows > 0,
        ensures
            final(self).wf(),
            final(self).view() == spec_line_feed(old(self).view()),
    {
        if self.cursor_row + 1 >= self.rows {
            let ghost old_grid = self.grid@;
            self.grid.remove(0);
            let mut line: Vec<Cell> = Vec::new();
            let mut c: usize = 0;
            while c < self.cols
                invariant
                    0 <= c <= self.cols,
                    row_chars(line) == blank_row(c as nat),
                decreases self.cols - c,
            {
                let ghost prev = line@;
                line.push(Cell { ch: ' ' });
                c = c + 1;
                proof {
                    lemma_chars_push(prev, Cell { ch: ' ' });
                    assert(blank_row((c - 1) as nat).push(' ') =~= blank_row(c as nat));
                }
            }
            let ghost mid = self.grid@;
            self.grid.push(line);
            proof {
                lemma_grid_chars_push(mid, line);
                assert(grid_chars(mid) =~= grid_chars(old_grid).drop_first());
            }
        } else {
            self.cursor_row = self.cursor_row + 1;
        }
    }

    fn carriage_return(&mut self)
        requires
            old(self).wf(),
        ensures
            final(self).wf(),
            final(self).view() == (GridView { col: 0, ..old(self).view() }),
    {
        self.cursor_col = 0;
    }

    fn put_char(&mut self, ch: char)
        requires
            old(self).wf(),
        ensures
            final(self).wf(),
            final(self).view() == spec_put_char(old(self).view(), ch),
    {
        if self.cursor_row >= self.rows || self.cursor_col >= self.cols {
            return;
        }
        self.set_cell(self.cursor_row, self.cursor_col, ch);
        self.cursor_col = self.cursor_col + 1;
        if self.cursor_col >= self.cols {
            self.cursor_col = 0;
            self.line_feed();
        }
    }

    fn execute(&mut self, byte: u8)
        requires
            old(self).wf(),
            !step_panics(old(self).view().rows, old(self).view().cols, VtStep::Execute(byte)),
        ensures
            final(self).wf(),
            final(self).view() == spec_execute(old(self).view(), byte),
    {
        if byte == 0x0a {
            self.line_feed();
        } else if byte == 0x0d {
            self.carriage_return();
        } else if byte == 0x08 {
            if self.cursor_col > 0 {
                self.cursor_col = self.cursor_col - 1;
            }
        } else if byte == 0x09 {
            let next = ((self.cursor_col / 8) + 1) * 8;
            self.cursor_col = if next < self.cols - 1 {
                next
            } else {
                self.cols - 1
            };
        }
    }
}

/// The first value of parameter `i`, or `default`.
fn param_at(params: &Vec<Option<u16>>, i: usize, default: u16) -> (r: u16)
    ensures
        r == param(params@, i as int, default as nat),
{
    if i < params.len() {
        match params[i] {
            Some(v) => v,
            None => default,
        }
    } else {
        default
    }
}

impl VteGrid {
    /// Blanks every cell of rows `lo..hi`.
    fn clear_rows(&mut self, lo: usize, hi: usize)
        requires
            old(self).wf(),
            lo <= hi <= old(self).view().rows,
        ensures
            final(self).wf(),
            final(self).view() == (GridView {
                cells: Seq::new(
                    old(self).view().cells.len(),
                    |r: int|
                        if lo <= r < hi {
                            blank_row(old(self).view().cols)
                        } else {
                            old(self).view().cells[r]
                        },
                ),
                ..old(self).view()
            }),
    {
        let ghost g0 = self.view();
        let mut r = lo;
        assert(Seq::new(g0.cells.len(), |x: int| if lo <= x < lo { blank_row(g0.cols) } else { g0.cells[x] }) =~= g0.cells);
        while r < hi
            invariant
                self.wf(),
                lo <= r <= hi <= g0.rows,
                g0.cells.len() == g0.rows,
                forall|x: int| 0 <= x < g0.rows ==> (#[trigger] g0.cells[x]).len() == g0.cols,
                self.view() == (GridView {
                    cells: Seq::new(
                        g0.cells.len(),
                        |x: int|
                            if lo <= x < r {
                                blank_row(g0.cols)
                            } else {
                                g0.cells[x]
                            },
                    ),
                    ..g0
                }),
            decreases hi - r,
        {
            self.clear_span(r, 0, self.cols);
            r = r + 1;
            assert(blank_span(g0.cells[r - 1], 0, g0.cols as int) =~= blank_row(g0.cols));
            assert(self.view().cells =~= Seq::new(
                g0.cells.len(),
                |x: int|
                    if lo <= x < r {
                        blank_row(g0.cols)
                    } else {
                        g0.cells[x]
                    },
            ));
        }
    }

    fn csi_dispatch(&mut self, params: &Vec<Option<u16>>, action: char)
        requires
            old(self).wf(),
            !step_panics(old(self).view().rows, old(self).view().cols, VtStep::Csi(params@, action)),
        ensures
            final(self).wf(),
            final(self).view() == spec_csi(old(self).view(), params@, action),
    {
        let ghost g0 = self.view();
        if action == 'H' || action == 'f' {
            let row = param_at(params, 0, 1) as usize;
            let col = param_at(params, 1, 1) as usize;
            let row0 = if row > 0 { row - 1 } else { 0 };
            let col0 = if col > 0 { col - 1 } else { 0 };
            self.cursor_row = if row0 < self.rows - 1 { row0 } else { self.rows - 1 };
            self.cursor_col = if col0 < self.cols - 1 { col0 } else { self.cols - 1 };
        } else if action == 'A' {
            let n = param_at(params, 0, 1) as usize;
            self.cursor_row = if self.cursor_row >= n { self.cursor_row - n } else { 0 };
        } else if action == 'B' {
            let n = param_at(params, 0, 1) as usize;
            let target = self.cursor_row + n;
            self.cursor_row = if target < self.rows - 1 { target } else { self.rows - 1 };
        } else if action == 'C' {
            let n = param_at(params, 0, 1) as usize;
            let target = self.cursor_col + n;
            self.cursor_col = if target < self.cols - 1 { target } else { self.cols - 1 };
        } else if action == 'D' {
            let n = param_at(params, 0, 1) as usize;
            self.cursor_col = if self.cursor_col >= n { self.cursor_col - n } else { 0 };
        } else if action == 'J' {
            let mode = param_at(params, 0, 0);
            if mode == 0 {
                if self.rows > 0 {
                    self.clear_span(self.cursor_row, self.cursor_col, self.cols);
                    self.clear_rows(self.cursor_row + 1, self.rows);
                }
                assert(self.view().cells =~= spec_csi(g0, params@, action).cells);
            } else if mode == 1 {
                self.clear_rows(0, self.cursor_row);
                self.clear_span(self.cursor_row, 0, self.cursor_col + 1);
                assert(self.view().cells =~= spec_csi(g0, params@, action).cells);
            } else if mode == 2 {
                self.grid = new_grid(self.rows, self.cols);
            }
        } else if action == 'K' {
            let mode = param_at(params, 0, 0);
            if self.cursor_row >= self.rows {
            } else if mode == 0 {
                self.clear_span(self.cursor_row, self.cursor_col, self.cols);
            } else if mode == 1 {
                self.clear_span(self.cursor_row, 0, self.cursor_col + 1);
            } else if mode == 2 {
                self.clear_span(self.cursor_row, 0, self.cols);
                assert(blank_span(g0.cells[g0.row as int], 0, g0.cols as int) =~= blank_row(g0.cols));
            }
        }
    }

    /// Applies one parser event.
    pub fn apply(&mut self, action: &VtAction)
        requires
            old(self).wf(),
            !step_panics(old(self).view().rows, old(self).view().cols, action_view(*action)),
        ensures
            final(self).wf(),
            final(self).view() == spec_step(old(self).view(), action_view(*action)),
    {
        match action {
            VtAction::Print(c) => self.put_char(*c),
            VtAction::Execute(b) => self.execute(*b),
            VtAction::Csi { params, action } => self.csi_dispatch(params, *action),
        }
    }

    /// Applies parser events in order: what feeding their bytes does to the
    /// grid, given the events the parser reported.
    pub fn apply_actions(&mut self, actions: &Vec<VtAction>)
        requires
            old(self).wf(),
            steps_safe(
                old(self).view().rows,
                old(self).view().cols,
                actions@.map_values(|a: VtAction| action_view(a)),
            ),
        ensures
            final(self).wf(),
            final(self).view() == spec_steps(
                old(self).view(),
                actions@.map_values(|a: VtAction| action_view(a)),
            ),
    {
        let ghost steps = actions@.map_values(|a: VtAction| action_view(a));
        let mut k: usize = 0;
        assert(steps.skip(0) =~= steps);
        while k < actions.len()
            invariant
                self.wf(),
                0 <= k <= actions@.len(),
                steps == actions@.map_values(|a: VtAction| action_view(a)),
                self.view().rows == old(self).view().rows,
                self.view().cols == old(self).view().cols,
                steps_safe(self.view().rows, self.view().cols, steps),
                spec_steps(self.view(), steps.skip(k as int)) == spec_steps(old(self).view(), steps),
            decreases actions@.len() - k,
        {
            assert(steps[k as int] == action_view(actions@[k as int]));
            self.apply(&actions[k]);
            assert(steps.skip(k as int).drop_first() =~= steps.skip(k + 1));
            k = k + 1;
        }
    }

    /// Feed raw PTY output bytes into the VTE parser. Every event they give
    /// must fit the grid's size (always so when it has a row and a column).
    pub fn process(&mut self, bytes: &[u8])
        requires
            old(self).wf(),
            steps_safe(old(self).view().rows, old(self).view().cols, vt_parse(bytes@)),
        ensures
            final(self).wf(),
            final(self).view() == spec_steps(old(self).view(), vt_parse(bytes@)),
            grid_shape_ok(final(self).view()),
            final(self).view().rows == old(self).view().rows,
            final(self).view().cols == old(self).view().cols,
    {
        proof {
            lemma_steps_keep_size(old(self).view(), vt_parse(bytes@));
        }
        let actions = parse_vt(bytes);
        self.apply_actions(&actions);
    }

    /// Feeds `bytes` as `process` does when every event they give fits the
    /// grid's size, and returns whether it did; otherwise the grid is left
    /// as it was.
    pub fn try_process(&mut self, bytes: &[u8]) -> (done: bool)
        requires
            old(self).wf(),
        ensures
            final(self).wf(),
            done == steps_safe(old(self).view().rows, old(self).view().cols, vt_parse(bytes@)),
            done ==> final(self).view() == spec_steps(old(self).view(), vt_parse(bytes@)),
            !done ==> final(self).view() == old(self).view(),
    {
        let actions = parse_vt(bytes);
        let ghost steps = vt_parse(bytes@);
        let mut k: usize = 0;
        while k < actions.len()
            invariant
                self.wf(),
                self.view() == old(self).view(),
                0 <= k <= actions@.len(),
                steps == vt_parse(bytes@),
                steps == actions@.map_values(|a: VtAction| action_view(a)),
                forall|i: int| 0 <= i < k ==> !step_panics(self.view().rows, self.view().cols, #[trigger] steps[i]),
            decreases actions@.len() - k,
        {
            if action_panics(self.rows, self.cols, &actions[k]) {
                assert(step_panics(self.view().rows, self.view().cols, steps[k as int]));
                return false;
            }
            k = k + 1;
        }
        self.process(bytes);
        true
    }
}

/// Whether applying `a` to a grid of `rows` x `cols` fails.
fn action_panics(rows: usize, cols: usize, a: &VtAction) -> (r: bool)
    ensures
        r == step_panics(rows as nat, cols as nat, action_view(*a)),
{
    match a {
        VtAction::Print(_) => false,
        VtAction::Execute(b) => (*b == 0x0a && rows == 0) || (*b == 0x09 && cols == 0),
        VtAction::Csi { params, action } => {
            let a = *action;
            if a == 'H' || a == 'f' {
                rows == 0 || cols == 0
            } else if a == 'B' {
                rows == 0
            } else if a == 'C' {
                cols == 0
            } else if a == 'J' || a == 'K' {
                let mode = param_at(params, 0, 0);
                if mode == 1 {
                    rows == 0 || cols == 0
                } else if mode == 0 || (a == 'K' && mode == 2) {
                    rows == 0 && cols > 0
                } else {
                    false
                }
            } else {
                false
            }
        },
    }
}

pub(crate) fn is_whitespace_char(c: char) -> (r: bool)
    ensures
        r == is_white(c),
{
    let u = c as u32;
    (0x09 <= u && u <= 0x0d) || u == 0x20 || u == 0x85 || u == 0xa0 || u == 0x1680 || (0x2000 <= u
        && u <= 0x200a) || u == 0x2028 || u == 0x2029 || u == 0x202f || u == 0x205f || u == 0x3000
}

pub(crate) proof fn lemma_trim_end_at(line: Seq<char>, e: int)
    requires
        0 <= e <= line.len(),
        forall|k: int| e <= k < line.len() ==> is_white(#[trigger] line[k]),
        e == 0 || !is_white(line[e - 1]),
    ensures
        trim_end(line) == line.subrange(0, e),
    decreases line.len(),
{
    if line.len() > e {
        assert(line.drop_last().subrange(0, e) =~= line.subrange(0, e));
        lemma_trim_end_at(line.drop_last(), e);
    } else {
        assert(line.subrange(0, e) =~= line);
    }
}

proof fn lemma_joined_step(lines: Seq<Seq<char>>, i: int)
    requires
        0 <= i < lines.len(),
    ensures
        joined_lines(lines.take(i + 1)) == joined_lines(lines.take(i)) + (if i > 0 {
            seq![0x0au8]
        } else {
            Seq::<u8>::empty()
        }) + vstd::utf8::encode_utf8(lines[i]),
{
    let t = lines.take(i + 1);
    assert(t.drop_last() =~= lines.take(i));
    if i == 0 {
        assert(lines.take(0) =~= Seq::<Seq<char>>::empty());
        assert(Seq::<u8>::empty() + Seq::<u8>::empty() + vstd::utf8::encode_utf8(lines[0])
            =~= vstd::utf8::encode_utf8(lines[0]));
    }
}

impl VteGrid {
    /// Row `r` as text, without trailing whitespace.
    fn line_text(&self, r: usize) -> (s: String)
        requires
            self.wf(),
            r < self.view().rows,
        ensures
            s@ == trim_end(self.view().cells[r as int]),
    {
        let ghost line = self.view().cells[r as int];
        let row = &self.grid[r];
        let mut e = row.len();
        while e > 0 && is_whitespace_char(row[e - 1].ch)
            invariant
                0 <= e <= row@.len(),
                row_chars(*row) == line,
                line.len() == row@.len(),
                forall|k: int| e <= k < line.len() ==> is_white(#[trigger] line[k]),
            decreases e,
        {
            e = e - 1;
        }
        proof {
            lemma_trim_end_at(line, e as int);
        }
        let mut out = String::new();
        let mut k: usize = 0;
        while k < e
            invariant
                0 <= k <= e <= row@.len(),
                row_chars(*row) == line,
                line.len() == row@.len(),
                out@ == line.subrange(0, k as int),
            decreases e - k,
        {
            push_char(&mut out, row[k].ch);
            k = k + 1;
            assert(out@ =~= line.subrange(0, k as int));
        }
        out
    }

    /// Return the current visible screen lines (trimmed trailing spaces).
    pub fn screen(&self) -> (lines: Vec<String>)
        requires
            self.wf(),
        ensures
            lines@.map_values(|s: String| s@) == screen_lines(self.view()),
    {
        let mut lines: Vec<String> = Vec::new();
        let mut r: usize = 0;
        while r < self.grid.len()
            invariant
                self.wf(),
                0 <= r <= self.view().rows,
                self.grid@.len() == self.view().rows,
                lines@.map_values(|s: String| s@) == screen_lines(self.view()).take(r as int),
            decreases self.view().rows - r,
        {
            let t = self.line_text(r);
            let ghost prev = lines@;
            lines.push(t);
            r = r + 1;
            assert(lines@ == prev.push(t));
            assert(lines@.map_values(|s: String| s@) =~= prev.map_values(|s: String| s@).push(t@));
            assert(screen_lines(self.view())[r - 1] == trim_end(self.view().cells[r - 1]));
            assert(screen_lines(self.view()).take(r as int) =~= screen_lines(self.view()).take(
                (r - 1) as int,
            ).push(t@));
        }
        assert(screen_lines(self.view()).take(r as int) =~= screen_lines(self.view()));
        lines
    }

    /// Generate VT100 escape sequences for a full screen redraw.
    pub fn full_redraw_bytes(&self) -> (out: Vec<u8>)
        requires
            self.wf(),
        ensures
            out@ == spec_full_redraw(self.view()),
    {
        let ghost lines = screen_lines(self.view());
        let ghost head = seq![0x1bu8, 0x5bu8, 0x48u8, 0x1bu8, 0x5bu8, 0x32u8, 0x4au8];
        let mut out: Vec<u8> = Vec::new();
        out.push(0x1b);
        out.push(0x5b);
        out.push(0x48);
        out.push(0x1b);
        out.push(0x5b);
        out.push(0x32);
        out.push(0x4a);
        assert(out@ =~= head + joined_lines(lines.take(0)));
        let mut r: usize = 0;
        while r < self.grid.len()
            invariant
                self.wf(),
                0 <= r <= self.view().rows,
                self.grid@.len() == self.view().rows,
                lines == screen_lines(self.view()),
                head == seq![0x1bu8, 0x5bu8, 0x48u8, 0x1bu8, 0x5bu8, 0x32u8, 0x4au8],
                out@ == head + joined_lines(lines.take(r as int)),
            decreases self.view().rows - r,
        {
            let ghost before = out@;
            if r > 0 {
                out.push(0x0a);
            }
            let t = self.line_text(r);
            let bytes = t.as_str().as_bytes();
            let ghost mid = out@;
            let mut k: usize = 0;
            while k < bytes.len()
                invariant
                    0 <= k <= bytes@.len(),
                    out@ == mid + bytes@.subrange(0, k as int),
                decreases bytes@.len() - k,
            {
                out.push(bytes[k]);
                k = k + 1;
                assert(out@ =~= mid + bytes@.subrange(0, k as int));
            }
            proof {
                assert(bytes@.subrange(0, k as int) =~= bytes@);
                lemma_joined_step(lines, r as int);
                assert(lines[r as int] == t@);
            }
            r = r + 1;
            assert(out@ =~= head + joined_lines(lines.take(r as int)));
        }
        assert(lines.take(r as int) =~= lines);
        let ghost body = out@;
        out.push(0x1b);
        out.push(0x5b);
        push_decimal(&mut out, (self.cursor_row as u128) + 1);
        out.push(0x3b);
        push_decimal(&mut out, (self.cursor_col as u128) + 1);
        out.push(0x48);
        assert(out@ =~= spec_full_redraw(self.view()));
        out
    }
}

proof fn lemma_steps_keep_size(g: GridView, steps: Seq<VtStep>)
    ensures
        spec_steps(g, steps).rows == g.rows,
        spec_steps(g, steps).cols == g.cols,
    decreases steps.len(),
{
    if steps.len() > 0 {
        lemma_steps_keep_size(spec_step(g, steps[0]), steps.drop_first());
    }
}

proof fn lemma_trim_end_len(line: Seq<char>)
    ensures
        trim_end(line).len() <= line.len(),
    decreases line.len(),
{
    if line.len() > 0 && is_white(line.last()) {
        lemma_trim_end_len(line.drop_last());
    }
}

/// A well-shaped grid shows exactly its rows, none longer than its
/// columns, and its cursor lies inside it.
pub proof fn lemma_screen_shape(g: GridView)
    requires
        grid_shape_ok(g),
        g.rows > 0,
        g.cols > 0,
    ensures
        screen_lines(g).len() == g.rows,
        forall|i: int| 0 <= i < g.rows ==> (#[trigger] screen_lines(g)[i]).len() <= g.cols,
        g.row < g.rows,
        g.col < g.cols,
{
    assert forall|i: int| 0 <= i < g.rows implies (#[trigger] screen_lines(g)[i]).len() <= g.cols by {
        lemma_trim_end_len(g.cells[i]);
    }
}


/// Erase in display (`CSI J`): mode 0 (the default) blanks the cursor's
/// row from the cursor to its end and every row below; mode 1 blanks every
/// row above and the cursor's row up to and including the cursor; mode 2
/// blanks every cell. Every other cell, the size and the cursor stay.
pub proof fn lemma_erase_in_display(g: GridView, ps: Seq<Option<u16>>)
    requires
        grid_shape_ok(g),
        !step_panics(g.rows, g.cols, VtStep::Csi(ps, 'J')),
    ensures
        ({
            let h = spec_step(g, VtStep::Csi(ps, 'J'));
            let mode = param(ps, 0, 0);
            &&& h.rows == g.rows && h.cols == g.cols && h.row == g.row && h.col == g.col
            &&& grid_shape_ok(h)
            &&& forall|r: int, k: int|
                0 <= r < g.rows && 0 <= k < g.cols ==> #[trigger] h.cells[r][k] == if (mode == 0
                    && (r > g.row || (r == g.row && k >= g.col))) || (mode == 1 && (r < g.row || (r
                    == g.row && k <= g.col))) || mode == 2 {
                    ' '
                } else {
                    g.cells[r][k]
                }
        }),
{
    let h = spec_step(g, VtStep::Csi(ps, 'J'));
    let mode = param(ps, 0, 0);
    assert forall|r: int| 0 <= r < h.rows implies (#[trigger] h.cells[r]).len() == h.cols by {
        assert(g.cells[r].len() == g.cols);
    }
    assert forall|r: int, k: int| 0 <= r < g.rows && 0 <= k < g.cols implies #[trigger] h.cells[r][k]
        == if (mode == 0 && (r > g.row || (r == g.row && k >= g.col))) || (mode == 1 && (r < g.row || (r
        == g.row && k <= g.col))) || mode == 2 {
        ' '
    } else {
        g.cells[r][k]
    } by {
        assert(g.cells[r].len() == g.cols);
    }
}

/// Erase in line (`CSI K`): mode 0 (the default) blanks the cursor's row
/// from the cursor to its end, mode 1 from its start up to and including
/// the cursor, mode 2 the whole row. Every other cell, the size and the
/// cursor stay.
pub proof fn lemma_erase_in_line(g: GridView, ps: Seq<Option<u16>>)
    requires
        grid_shape_ok(g),
        !step_panics(g.rows, g.cols, VtStep::Csi(ps, 'K')),
    ensures
        ({
            let h = spec_step(g, VtStep::Csi(ps, 'K'));
            let mode = param(ps, 0, 0);
            &&& h.rows == g.rows && h.cols == g.cols && h.row == g.row && h.col == g.col
            &&& grid_shape_ok(h)
            &&& forall|r: int, k: int|
                0 <= r < g.rows && 0 <= k < g.cols ==> #[trigger] h.cells[r][k] == if r == g.row && ((
                mode == 0 && k >= g.col) || (mode == 1 && k <= g.col) || mode == 2) {
                    ' '
                } else {
                    g.cells[r][k]
                }
        }),
{
    let h = spec_step(g, VtStep::Csi(ps, 'K'));
    let mode = param(ps, 0, 0);
    assert forall|r: int| 0 <= r < h.rows implies (#[trigger] h.cells[r]).len() == h.cols by {
        assert(g.cells[r].len() == g.cols);
    }
    assert forall|r: int, k: int| 0 <= r < g.rows && 0 <= k < g.cols implies #[trigger] h.cells[r][k]
        == if r == g.row && ((mode == 0 && k >= g.col) || (mode == 1 && k <= g.col) || mode == 2) {
        ' '
    } else {
        g.cells[r][k]
    } by {
        assert(g.cells[r].len() == g.cols);
    }
}


/// Cursor moves (`CSI A`, `B`, `C`, `D`, `H`, `f`) leave every cell and the
/// size as they are. `H`/`f` go to the 1-based row and column asked for
/// (1 when missing or 0), pulled back onto the grid. `A`/`B` move up/down
/// and `D`/`C` left/right by the count asked for (1 when missing), stopping
/// at the grid's edge.
pub proof fn lemma_cursor_moves(g: GridView, ps: Seq<Option<u16>>, a: char)
    requires
        grid_shape_ok(g),
        a == 'A' || a == 'B' || a == 'C' || a == 'D' || a == 'H' || a == 'f',
        !step_panics(g.rows, g.cols, VtStep::Csi(ps, a)),
    ensures
        ({
            let h = spec_step(g, VtStep::Csi(ps, a));
            let n = param(ps, 0, 1);
            &&& h.cells == g.cells && h.rows == g.rows && h.cols == g.cols
            &&& grid_shape_ok(h)
            &&& (a == 'H' || a == 'f') ==> ({
                let pr = param(ps, 0, 1);
                let pc = param(ps, 1, 1);
                &&& h.row < g.rows && h.col < g.cols
                &&& 1 <= pr <= g.rows ==> h.row + 1 == pr
                &&& pr == 0 ==> h.row == 0
                &&& pr > g.rows ==> h.row + 1 == g.rows
                &&& 1 <= pc <= g.cols ==> h.col + 1 == pc
                &&& pc == 0 ==> h.col == 0
                &&& pc > g.cols ==> h.col + 1 == g.cols
            })
            &&& a == 'A' ==> h.col == g.col && h.row <= g.row && g.row - h.row <= n && (h.row > 0
                ==> g.row - h.row == n)
            &&& a == 'B' ==> h.col == g.col && g.row <= h.row < g.rows && h.row - g.row <= n && (h.row
                + 1 < g.rows ==> h.row - g.row == n)
            &&& a == 'D' ==> h.row == g.row && h.col <= g.col && g.col - h.col <= n && (h.col > 0
                ==> g.col - h.col == n)
            &&& a == 'C' ==> h.row == g.row && g.col <= h.col < g.cols && h.col - g.col <= n && (h.col
                + 1 < g.cols ==> h.col - g.col == n)
        }),
{
}


/// A line feed (`\n`) moves the cursor down one row, keeping its column;
/// on the last row the grid scrolls up instead: each row takes the text of
/// the row below it, and the last row comes in blank.
pub proof fn lemma_line_feed(g: GridView)
    requires
        grid_shape_ok(g),
        g.rows > 0,
    ensures
        ({
            let h = spec_step(g, VtStep::Execute(0x0a));
            &&& grid_shape_ok(h) && h.rows == g.rows && h.cols == g.cols && h.col == g.col
            &&& g.row + 1 < g.rows ==> h.row == g.row + 1 && h.cells == g.cells
            &&& g.row + 1 == g.rows ==> h.row == g.row && (forall|r: int, k: int|
                0 <= r < g.rows - 1 && 0 <= k < g.cols ==> #[trigger] h.cells[r][k] == g.cells[r
                    + 1][k]) && (forall|k: int| 0 <= k < g.cols ==> #[trigger] h.cells[g.rows - 1][k]
                == ' ')
        }),
{
    let h = spec_step(g, VtStep::Execute(0x0a));
    if g.row + 1 >= g.rows {
        assert forall|r: int| 0 <= r < h.rows implies (#[trigger] h.cells[r]).len() == h.cols by {
            if r < g.rows - 1 {
                assert(h.cells[r] == g.cells[r + 1]);
            }
        }
    }
}

/// Printing writes the character under the cursor and moves the cursor
/// one column right. Writing the last column moves the cursor to the start
/// of the next row, and on the last row scrolls the grid up one row (each
/// row takes the text of the row below it, the last row comes in blank).
pub proof fn lemma_print(g: GridView, c: char)
    requires
        grid_shape_ok(g),
        g.rows > 0,
        g.cols > 0,
    ensures
        ({
            let h = spec_step(g, VtStep::Print(c));
            let written = |r: int, k: int|
                if r == g.row && k == g.col {
                    c
                } else {
                    g.cells[r][k]
                };
            &&& grid_shape_ok(h) && h.rows == g.rows && h.cols == g.cols
            &&& g.col + 1 < g.cols ==> h.row == g.row && h.col == g.col + 1 && forall|r: int, k: int|
                0 <= r < g.rows && 0 <= k < g.cols ==> #[trigger] h.cells[r][k] == written(r, k)
            &&& g.col + 1 == g.cols && g.row + 1 < g.rows ==> h.row == g.row + 1 && h.col == 0
                && forall|r: int, k: int|
                0 <= r < g.rows && 0 <= k < g.cols ==> #[trigger] h.cells[r][k] == written(r, k)
            &&& g.col + 1 == g.cols && g.row + 1 == g.rows ==> h.row == g.row && h.col == 0 && (
            forall|r: int, k: int|
                0 <= r < g.rows - 1 && 0 <= k < g.cols ==> #[trigger] h.cells[r][k] == written(
                    r + 1,
                    k,
                )) && (forall|k: int| 0 <= k < g.cols ==> #[trigger] h.cells[g.rows - 1][k] == ' ')
        }),
{
    let h = spec_step(g, VtStep::Print(c));
    let cells = g.cells.update(g.row as int, g.cells[g.row as int].update(g.col as int, c));
    let w = GridView { cells, ..g };
    assert(cells.len() == g.rows);
    assert forall|r: int| 0 <= r < g.rows implies (#[trigger] cells[r]).len() == g.cols by {
        assert(g.cells[r].len() == g.cols);
    }
    assert forall|r: int, k: int| 0 <= r < g.rows && 0 <= k < g.cols implies #[trigger] cells[r][k]
        == if r == g.row && k == g.col {
        c
    } else {
        g.cells[r][k]
    } by {
        assert(g.cells[r].len() == g.cols);
    }
    if g.col + 1 >= g.cols && g.row + 1 >= g.rows {
        assert forall|r: int| 0 <= r < h.rows implies (#[trigger] h.cells[r]).len() == h.cols by {
            if r < g.rows - 1 {
                assert(h.cells[r] == cells[r + 1]);
            }
        }
        assert forall|r: int, k: int| 0 <= r < g.rows - 1 && 0 <= k < g.cols implies #[trigger] h.cells[r][k]
            == (if r + 1 == g.row && k == g.col {
            c
        } else {
            g.cells[r + 1][k]
        }) by {
            assert(h.cells[r] == cells[r + 1]);
        }
    }
}

} // verus!
