use vstd::prelude::*;
use crate::app::Mode;
use crate::grid::{Board, Grid};

verus! {

/// One character cell of the terminal, which shows two grid rows: the upper
/// half and the lower half.
#[derive(Copy, Clone, Debug, PartialEq, Eq, Structural)]
pub struct CharCell {
    pub top: bool,
    pub bot: bool,
}

/// The colours the renderer asks the terminal for.
#[derive(Copy, Clone, Debug, PartialEq, Eq, Structural)]
pub enum Color {
    White,
    Black,
}

/// A terminal command. A frame is a sequence of these, which the front end
/// queues to the terminal in order and then flushes.
#[derive(Clone, Debug, PartialEq, Eq)]
pub enum Command {
    /// Moves the cursor to column, row.
    MoveTo(u16, u16),
    SetForeground(Color),
    SetBackground(Color),
    ResetColor,
    /// Prints one character at the cursor.
    PrintChar(char),
    /// Prints a run of characters at the cursor.
    PrintText(Vec<char>),
    ShowCursor,
    HideCursor,
}

/// What a command means, with printed text as a sequence of characters.
pub enum CommandView {
    MoveTo(u16, u16),
    SetForeground(Color),
    SetBackground(Color),
    ResetColor,
    PrintChar(char),
    PrintText(Seq<char>),
    ShowCursor,
    HideCursor,
}

impl View for Command {
    type V = CommandView;

    open spec fn view(&self) -> CommandView {
        match self {
            Command::MoveTo(c, r) => CommandView::MoveTo(*c, *r),
            Command::SetForeground(c) => CommandView::SetForeground(*c),
            Command::SetBackground(c) => CommandView::SetBackground(*c),
            Command::ResetColor => CommandView::ResetColor,
            Command::PrintChar(c) => CommandView::PrintChar(*c),
            Command::PrintText(t) => CommandView::PrintText(t@),
            Command::ShowCursor => CommandView::ShowCursor,
            Command::HideCursor => CommandView::HideCursor,
        }
    }
}

/// The meaning of a sequence of commands.
pub open spec fn commands_view(cmds: Seq<Command>) -> Seq<CommandView> {
    cmds.map_values(|c: Command| c@)
}

/// The character that shows a cell: blank, full block, upper half block or
/// lower half block.
pub open spec fn glyph(c: CharCell) -> char {
    if c.top && c.bot {
        '█'
    } else if c.top {
        '▀'
    } else if c.bot {
        '▄'
    } else {
        ' '
    }
}

/// The character cells that show `g` on a terminal of `cols` columns and
/// `rows` rows: the cell at column `c`, row `r` (index `r * cols + c`) shows
/// grid rows `2r` and `2r + 1` of grid column `c`.
pub open spec fn frame_of(g: Board, cols: nat, rows: nat) -> Seq<CharCell> {
    Seq::new(
        cols * rows,
        |i: int|
            CharCell {
                top: g.alive(i % (cols as int), 2 * (i / (cols as int))),
                bot: g.alive(i % (cols as int), 2 * (i / (cols as int)) + 1),
            },
    )
}

/// The commands that draw one cell at `(col, row)` given whether the
/// foreground colour is currently set, and whether it is set afterwards: a
/// blank resets the colour if it was set, any other glyph sets white if it
/// was not.
pub open spec fn draw_cell(c: CharCell, col: int, row: int, fg: bool) -> (Seq<CommandView>, bool) {
    let mv = seq![CommandView::MoveTo(col as u16, row as u16)];
    if !c.top && !c.bot {
        let reset = if fg { seq![CommandView::ResetColor] } else { seq![] };
        (mv + reset + seq![CommandView::PrintChar(' ')], false)
    } else {
        let set = if fg { seq![] } else { seq![CommandView::SetForeground(Color::White)] };
        (mv + set + seq![CommandView::PrintChar(glyph(c))], true)
    }
}

/// The commands that draw the first `n` cells of `next`, in index order, on
/// a screen that shows `prev`: a cell is drawn when `force` is set or when
/// it differs from what is shown. The second component says whether the
/// foreground colour is set afterwards.
pub open spec fn draw_cells(prev: Seq<CharCell>, next: Seq<CharCell>, force: bool, cols: int, n: int) -> (
    Seq<CommandView>,
    bool,
)
    decreases n,
{
    if n <= 0 {
        (seq![], false)
    } else {
        let (cmds, fg) = draw_cells(prev, next, force, cols, n - 1);
        let i = n - 1;
        if !force && next[i] == prev[i] {
            (cmds, fg)
        } else {
            let (more, fg2) = draw_cell(next[i], i % cols, i / cols, fg);
            (cmds + more, fg2)
        }
    }
}

/// The decimal digit `d` as a character.
pub open spec fn digit_char(d: int) -> char {
    if d == 0 {
        '0'
    } else if d == 1 {
        '1'
    } else if d == 2 {
        '2'
    } else if d == 3 {
        '3'
    } else if d == 4 {
        '4'
    } else if d == 5 {
        '5'
    } else if d == 6 {
        '6'
    } else if d == 7 {
        '7'
    } else if d == 8 {
        '8'
    } else {
        '9'
    }
}

/// `n` written in decimal, without leading zeros.
pub open spec fn decimal(n: nat) -> Seq<char>
    decreases n,
{
    if n < 10 {
        seq![digit_char(n as int)]
    } else {
        decimal(n / 10).push(digit_char((n % 10) as int))
    }
}

/// `text` cut or padded with spaces to exactly `width` characters.
pub open spec fn fit(text: Seq<char>, width: nat) -> Seq<char> {
    if text.len() >= width {
        text.take(width as int)
    } else {
        text + Seq::new((width - text.len()) as nat, |i: int| ' ')
    }
}

/// The text of the status line in each mode.
pub open spec fn status_text(mode: Mode, tick: u64, fps: u32) -> Seq<char> {
    match mode {
        Mode::Running => " tick "@ + decimal(tick as nat) + " | running | "@ + decimal(fps as nat)
            + " fps | space=pause r=reset e=edit q=quit"@,
        Mode::Paused => " tick "@ + decimal(tick as nat) + " | PAUSED  | "@ + decimal(fps as nat)
            + " fps | space=resume n=step r=reset e=edit q=quit"@,
        Mode::Editing { cx, cy } => " EDIT | cursor ("@ + decimal(cx as nat) + ","@ + decimal(cy as nat)
            + ") | arrows=move space=toggle enter=run c=clear esc=back"@,
    }
}

/// The commands that draw the status line: black on white on the row below
/// the cells, exactly `cols` characters wide.
pub open spec fn status_commands(cols: u16, rows: u16, mode: Mode, tick: u64, fps: u32) -> Seq<CommandView> {
    seq![
        CommandView::MoveTo(0, rows),
        CommandView::SetForeground(Color::Black),
        CommandView::SetBackground(Color::White),
        CommandView::PrintText(fit(status_text(mode, tick, fps), cols as nat)),
        CommandView::ResetColor,
    ]
}

/// The commands for the cursor: in edit mode it is shown on the character
/// row that holds its grid row (kept on screen); otherwise it is hidden.
pub open spec fn cursor_commands(rows: u16, mode: Mode) -> Seq<CommandView> {
    match mode {
        Mode::Editing { cx, cy } => {
            let last = rows.saturating_sub(1);
            let row = if cy / 2 < last { cy / 2 } else { last };
            seq![CommandView::ShowCursor, CommandView::MoveTo(cx, row)]
        },
        _ => seq![CommandView::HideCursor],
    }
}

/// What the renderer knows: the terminal size in character cells, the cells
/// on screen, the cells of the frame computed last (shown once the front end
/// has written it), and whether the next frame must redraw every cell.
pub struct RendererView {
    pub cols: u16,
    pub rows: u16,
    pub shown: Seq<CharCell>,
    pub pending: Seq<CharCell>,
    pub force_full: bool,
}

/// Draws a grid on a terminal, two grid rows per character row, redrawing
/// only the cells that changed since the last frame.
pub struct Renderer {
    cols: u16,
    char_rows: u16,
    prev: Vec<CharCell>,
    next: Vec<CharCell>,
    force_full: bool,
}

impl View for Renderer {
    type V = RendererView;

    closed spec fn view(&self) -> RendererView {
        RendererView {
            cols: self.cols,
            rows: self.char_rows,
            shown: self.prev@,
            pending: self.next@,
            force_full: self.force_full,
        }
    }
}

/// The commands of a frame that draw character cells: those of the cells
/// that changed since the frame on screen, or of all of them when a full
/// redraw is due.
pub open spec fn cell_commands(r: RendererView, g: Board) -> Seq<CommandView> {
    let frame = frame_of(g, r.cols as nat, r.rows as nat);
    draw_cells(r.shown, frame, r.force_full, r.cols as int, frame.len() as int).0
}

/// The commands of a whole frame: the cells, a colour reset, the status line
/// and the cursor.
pub open spec fn frame_commands(r: RendererView, g: Board, mode: Mode, tick: u64, fps: u32) -> Seq<CommandView> {
    cell_commands(r, g) + seq![CommandView::ResetColor] + status_commands(r.cols, r.rows, mode, tick, fps)
        + cursor_commands(r.rows, mode)
}

/// The state of a renderer for a terminal of `cols` by `rows` character
/// cells that has shown nothing yet: every cell blank, and the next frame
/// redraws them all.
pub open spec fn fresh_view(cols: u16, rows: u16) -> RendererView {
    RendererView {
        cols,
        rows,
        shown: Seq::new((cols * rows) as nat, |i: int| CharCell { top: false, bot: false }),
        pending: Seq::new((cols * rows) as nat, |i: int| CharCell { top: false, bot: false }),
        force_full: true,
    }
}

/// Every cell index below `cols * rows` decodes to a column below `cols` and
/// a row below `rows`.
pub(crate) proof fn lemma_cell_decode(cols: int, rows: int, col: int, row: int)
    requires
        0 <= col < cols,
        0 <= row < rows,
    ensures
        0 <= row * cols + col < cols * rows,
        (row * cols + col) % cols == col,
        (row * cols + col) / cols == row,
{
    crate::grid::lemma_index_in_range(cols, rows, col, row);
    crate::grid::lemma_index_decode(cols, col, row);
}


/// A frame with nothing changed draws no cell: when the screen already shows
/// the frame and no full redraw is due, the cell commands are empty.
pub proof fn lemma_unchanged_frame_draws_nothing(cells: Seq<CharCell>, cols: int, n: int)
    requires
        0 <= n <= cells.len(),
    ensures
        draw_cells(cells, cells, false, cols, n) == (Seq::<CommandView>::empty(), false),
    decreases n,
{
    if n > 0 {
        lemma_unchanged_frame_draws_nothing(cells, cols, n - 1);
    }
}

/// Some command of `cmds` moves the cursor to `(col, row)`.
pub open spec fn moves_to(cmds: Seq<CommandView>, col: u16, row: u16) -> bool {
    exists|j: int| 0 <= j < cmds.len() && #[trigger] cmds[j] == CommandView::MoveTo(col, row)
}

/// Commands joined one after the other move to a place exactly when one of
/// the two parts does.
proof fn lemma_moves_to_concat(a: Seq<CommandView>, b: Seq<CommandView>, col: u16, row: u16)
    ensures
        moves_to(a + b, col, row) == (moves_to(a, col, row) || moves_to(b, col, row)),
{
    let ab = a + b;
    if moves_to(ab, col, row) {
        let j = choose|j: int| 0 <= j < ab.len() && #[trigger] ab[j] == CommandView::MoveTo(col, row);
        if j < a.len() {
            assert(a[j] == ab[j]);
        } else {
            assert(b[j - a.len()] == ab[j]);
        }
    }
    if moves_to(a, col, row) {
        let j = choose|j: int| 0 <= j < a.len() && #[trigger] a[j] == CommandView::MoveTo(col, row);
        assert(ab[j] == a[j]);
    }
    if moves_to(b, col, row) {
        let j = choose|j: int| 0 <= j < b.len() && #[trigger] b[j] == CommandView::MoveTo(col, row);
        assert(ab[a.len() + j] == b[j]);
    }
}

/// The commands that draw one cell move the cursor to that cell and nowhere
/// else.
proof fn lemma_draw_cell_moves(c: CharCell, col: int, row: int, fg: bool, x: u16, y: u16)
    ensures
        moves_to(draw_cell(c, col, row, fg).0, x, y) == (x == col as u16 && y == row as u16),
{
    let s = draw_cell(c, col, row, fg).0;
    if moves_to(s, x, y) {
        let j = choose|j: int| 0 <= j < s.len() && #[trigger] s[j] == CommandView::MoveTo(x, y);
        assert(j == 0);
    }
    if x == col as u16 && y == row as u16 {
        assert(s[0] == CommandView::MoveTo(x, y));
    }
}

/// The commands that draw the first `n` cells move to the cell at
/// `(col, row)`, and so draw it, exactly when it is among those cells and
/// a full redraw is due or it differs from the cell on screen.
pub proof fn lemma_draw_cells_moves(
    prev: Seq<CharCell>,
    next: Seq<CharCell>,
    force: bool,
    cols: int,
    n: int,
    col: u16,
    row: u16,
)
    requires
        0 < cols <= u16::MAX,
        0 <= n <= prev.len(),
        n <= next.len(),
        n <= cols * 65536,
        col < cols,
    ensures
        moves_to(draw_cells(prev, next, force, cols, n).0, col, row) == (row * cols + col < n && (force
            || next[row * cols + col] != prev[row * cols + col])),
    decreases n,
{
    assert(0 <= row * cols) by (nonlinear_arith)
        requires
            0 <= row,
            0 <= cols,
    ;
    if n <= 0 {
        assert(draw_cells(prev, next, force, cols, n).0 =~= Seq::<CommandView>::empty());
    } else {
        lemma_draw_cells_moves(prev, next, force, cols, n - 1, col, row);
        let i = n - 1;
        let (cmds, fg) = draw_cells(prev, next, force, cols, n - 1);
        let idx = row * cols + col;
        crate::grid::lemma_index_decode(cols, col as int, row as int);
        vstd::arithmetic::div_mod::lemma_fundamental_div_mod(i, cols);
        vstd::arithmetic::div_mod::lemma_mod_bound(i, cols);
        assert(i / cols < 65536) by {
            vstd::arithmetic::div_mod::lemma_div_is_ordered(i, cols * 65536 - 1, cols);
            vstd::arithmetic::div_mod::lemma_fundamental_div_mod_converse(cols * 65536 - 1, cols, 65535, cols - 1);
        }
        assert(0 <= i / cols) by {
            vstd::arithmetic::div_mod::lemma_div_pos_is_pos(i, cols);
        }
        if !(!force && next[i] == prev[i]) {
            let (more, fg2) = draw_cell(next[i], i % cols, i / cols, fg);
            lemma_moves_to_concat(cmds, more, col, row);
            lemma_draw_cell_moves(next[i], i % cols, i / cols, fg, col, row);
            if col == (i % cols) as u16 && row == (i / cols) as u16 {
                assert(i % cols == col as int);
                assert(i / cols == row as int);
                vstd::arithmetic::mul::lemma_mul_is_commutative(cols, row as int);
                assert(i == idx);
            }
        }
    }
}

/// What a frame draws is exactly what changed: the cell commands of a frame
/// of `g` draw the character cell at `(col, row)` exactly when a full redraw
/// is due or its two grid cells differ from the cell the screen shows
/// there. So drawing an unchanged grid again draws no cell, and a frame
/// after `new`, `resize` or `invalidate` (a full redraw due) draws them all.
pub proof fn lemma_frame_draws_changed_cells(r: RendererView, g: Board, col: u16, row: u16)
    requires
        r.shown.len() == r.cols * r.rows,
        col < r.cols,
        row < r.rows,
    ensures
        moves_to(cell_commands(r, g), col, row) == (r.force_full || (CharCell {
            top: g.alive(col as int, 2 * row),
            bot: g.alive(col as int, 2 * row + 1),
        }) != r.shown[row * r.cols + col]),
{
    let cols = r.cols as int;
    let rows = r.rows as int;
    lemma_cell_decode(cols, rows, col as int, row as int);
    assert(cols * rows <= cols * 65536) by (nonlinear_arith)
        requires
            0 <= rows <= 65535,
            0 <= cols,
    ;
    let frame = frame_of(g, r.cols as nat, r.rows as nat);
    lemma_draw_cells_moves(r.shown, frame, r.force_full, cols, frame.len() as int, col, row);
}

/// In edit mode a frame ends by showing the terminal cursor on the
/// character cell that holds the cursor's grid cell: in the cursor's
/// column, on the character row whose two grid rows include the cursor's
/// row, so that this cell of the frame shows the cursor's grid cell; a
/// cursor below the screen is kept on the last character row.
pub proof fn lemma_cursor_on_its_cell(r: RendererView, g: Board, cx: u16, cy: u16, tick: u64, fps: u32)
    requires
        1 <= r.rows,
    ensures
        ({
            let cmds = frame_commands(r, g, Mode::Editing { cx, cy }, tick, fps);
            let frame = frame_of(g, r.cols as nat, r.rows as nat);
            &&& cmds.len() >= 2
            &&& cmds[cmds.len() - 2] == CommandView::ShowCursor
            &&& cmds[cmds.len() - 1] matches CommandView::MoveTo(col, row) && {
                &&& col == cx
                &&& row < r.rows
                &&& cy < 2 * r.rows ==> 2 * row <= cy < 2 * row + 2
                &&& cy >= 2 * r.rows ==> row == r.rows - 1
                &&& cy < 2 * r.rows && cx < r.cols ==> (if cy % 2 == 0 {
                    frame[row * r.cols + cx].top
                } else {
                    frame[row * r.cols + cx].bot
                }) == g.alive(cx as int, cy as int)
            }
        }),
{
    let mode = Mode::Editing { cx, cy };
    let cmds = frame_commands(r, g, mode, tick, fps);
    let cur = cursor_commands(r.rows, mode);
    let last = (r.rows - 1) as u16;
    let row: u16 = if cy / 2 < last { cy / 2 } else { last };
    assert(cur == seq![CommandView::ShowCursor, CommandView::MoveTo(cx, row)]);
    assert(cmds[cmds.len() - 2] == cur[0]);
    assert(cmds[cmds.len() - 1] == cur[1]);
    if cy < 2 * r.rows && cx < r.cols {
        let cols = r.cols as int;
        lemma_cell_decode(cols, r.rows as int, cx as int, row as int);
    }
}

/// The status line is always exactly as wide as the terminal.
pub proof fn lemma_status_fills_width(text: Seq<char>, width: nat)
    ensures
        fit(text, width).len() == width,
        forall|k: int| 0 <= k < width && k < text.len() ==> #[trigger] fit(text, width)[k] == text[k],
        forall|k: int| text.len() <= k < width ==> #[trigger] fit(text, width)[k] == ' ',
{
}

/// Appends the characters of `s`.
fn push_str(out: &mut Vec<char>, s: &str)
    ensures
        final(out)@ == old(out)@ + s@,
{
    let ghost start = out@;
    for ch in it: s.chars()
        invariant
            it.seq() == s@,
            out@ == start + s@.take(it.index() as int),
    {
        proof {
            assert(s@.take(it.index() + 1) =~= s@.take(it.index() as int).push(ch));
        }
        out.push(ch);
    }
    assert(s@.take(s@.len() as int) =~= s@);
}

/// The character of decimal digit `d`.
fn digit(d: u64) -> (c: char)
    requires
        d < 10,
    ensures
        c == digit_char(d as int),
{
    if d == 0 {
        '0'
    } else if d == 1 {
        '1'
    } else if d == 2 {
        '2'
    } else if d == 3 {
        '3'
    } else if d == 4 {
        '4'
    } else if d == 5 {
        '5'
    } else if d == 6 {
        '6'
    } else if d == 7 {
        '7'
    } else if d == 8 {
        '8'
    } else {
        '9'
    }
}

/// Appends `n` in decimal.
fn push_decimal(out: &mut Vec<char>, n: u64)
    ensures
        final(out)@ == old(out)@ + decimal(n as nat),
    decreases n,
{
    if n >= 10 {
        push_decimal(out, n / 10);
    }
    out.push(digit(n % 10));
    proof {
        if n >= 10 {
            assert(decimal(n as nat) == decimal((n / 10) as nat).push(digit_char((n % 10) as int)));
        }
    }
    assert(out@ =~= old(out)@ + decimal(n as nat));
}

/// Cuts or pads `text` to `width` characters.
fn fit_width(text: Vec<char>, width: usize) -> (s: Vec<char>)
    ensures
        s@ == fit(text@, width as nat),
        s@.len() == width,
{
    let mut s: Vec<char> = Vec::new();
    let mut i: usize = 0;
    while i < width && i < text.len()
        invariant
            i <= width,
            i <= text.len(),
            s@ == text@.take(i as int),
        decreases width - i,
    {
        s.push(text[i]);
        i = i + 1;
        assert(s@ =~= text@.take(i as int));
    }
    while s.len() < width
        invariant
            s.len() <= width,
            i == (if text.len() >= width { width } else { text.len() }),
            s@.take(i as int) == text@.take(i as int),
            forall|j: int| i <= j < s.len() ==> s@[j] == ' ',
            i <= s.len(),
        decreases width - s.len(),
    {
        s.push(' ');
    }
    assert forall|j: int| 0 <= j < s.len() implies s@[j] == fit(text@, width as nat)[j] by {
        if j < i {
            assert(s@.take(i as int)[j] == s@[j]);
            assert(text@.take(i as int)[j] == text@[j]);
        }
    }
    assert(s@ =~= fit(text@, width as nat));
    s
}

impl Renderer {
    /// Both cell buffers hold one cell per character cell.
    pub closed spec fn wf(&self) -> bool {
        &&& self.prev.len() == self.cols * self.char_rows
        &&& self.next.len() == self.cols * self.char_rows
    }

    /// A well-formed renderer shows one cell per character cell.
    pub proof fn lemma_view_wf(&self)
        requires
            self.wf(),
        ensures
            self@.shown.len() == self@.cols * self@.rows,
            self@.pending.len() == self@.cols * self@.rows,
    {
    }

    /// The number of character columns.
    pub fn cols(&self) -> (c: u16)
        ensures
            c == self@.cols,
    {
        self.cols
    }

    /// The number of character rows for cells (the status line not counted).
    pub fn char_rows(&self) -> (r: u16)
        ensures
            r == self@.rows,
    {
        self.char_rows
    }

    /// A renderer for a terminal of `cols` by `char_rows` character cells
    /// (the status line not counted) that will redraw everything first.
    pub fn new(cols: u16, char_rows: u16) -> (r: Self)
        requires
            cols * char_rows <= usize::MAX,
        ensures
            r.wf(),
            r@ == fresh_view(cols, char_rows),
    {
        let size = cols as usize * char_rows as usize;
        let mut prev: Vec<CharCell> = Vec::new();
        let mut next: Vec<CharCell> = Vec::new();
        let mut i: usize = 0;
        while i < size
            invariant
                i <= size,
                prev@ == Seq::new(i as nat, |j: int| CharCell { top: false, bot: false }),
                next@ == Seq::new(i as nat, |j: int| CharCell { top: false, bot: false }),
            decreases size - i,
        {
            prev.push(CharCell { top: false, bot: false });
            next.push(CharCell { top: false, bot: false });
            i = i + 1;
            assert(prev@ =~= Seq::new(i as nat, |j: int| CharCell { top: false, bot: false }));
            assert(next@ =~= Seq::new(i as nat, |j: int| CharCell { top: false, bot: false }));
        }
        Renderer { cols, char_rows, prev, next, force_full: true }
    }

    /// Adapts the renderer to a terminal of a new size; the next frame
    /// redraws everything.
    pub fn resize(&mut self, cols: u16, char_rows: u16)
        requires
            cols * char_rows <= usize::MAX,
        ensures
            final(self).wf(),
            final(self)@ == fresh_view(cols, char_rows),
    {
        *self = Renderer::new(cols, char_rows);
    }

    /// Makes the next frame redraw every cell.
    pub fn invalidate(&mut self)
        requires
            old(self).wf(),
        ensures
            final(self).wf(),
            final(self)@ == (RendererView { force_full: true, ..old(self)@ }),
    {
        self.force_full = true;
    }

    /// The status-line commands for the current mode.
    fn draw_status(&self, mode: &Mode, tick: u64, fps: u32) -> (cmds: Vec<Command>)
        ensures
            commands_view(cmds@) == status_commands(self.cols, self.char_rows, *mode, tick, fps),
    {
        let row = self.char_rows;
        let mut text: Vec<char> = Vec::new();
        match mode {
            Mode::Running => {
                push_str(&mut text, " tick ");
                push_decimal(&mut text, tick);
                push_str(&mut text, " | running | ");
                push_decimal(&mut text, fps as u64);
                push_str(&mut text, " fps | space=pause r=reset e=edit q=quit");
            },
            Mode::Paused => {
                push_str(&mut text, " tick ");
                push_decimal(&mut text, tick);
                push_str(&mut text, " | PAUSED  | ");
                push_decimal(&mut text, fps as u64);
                push_str(&mut text, " fps | space=resume n=step r=reset e=edit q=quit");
            },
            Mode::Editing { cx, cy } => {
                push_str(&mut text, " EDIT | cursor (");
                push_decimal(&mut text, *cx as u64);
                push_str(&mut text, ",");
                push_decimal(&mut text, *cy as u64);
                push_str(&mut text, ") | arrows=move space=toggle enter=run c=clear esc=back");
            },
        }
        assert(text@ == status_text(*mode, tick, fps));
        let width = self.cols as usize;
        let s = fit_width(text, width);
        let mut cmds: Vec<Command> = Vec::new();
        cmds.push(Command::MoveTo(0, row));
        cmds.push(Command::SetForeground(Color::Black));
        cmds.push(Command::SetBackground(Color::White));
        cmds.push(Command::PrintText(s));
        cmds.push(Command::ResetColor);
        assert(commands_view(cmds@) =~= status_commands(self.cols, self.char_rows, *mode, tick, fps));
        cmds
    }

    /// Computes the next frame of `grid` and returns the commands that put
    /// it on the terminal: the cells that changed since the frame on screen
    /// (all of them after a resize or an invalidation), the status line and
    /// the cursor. The frame counts as shown once `mark_shown` is called,
    /// after the commands have reached the terminal.
    pub fn render(&mut self, grid: &Grid, mode: &Mode, tick: u64, fps: u32) -> (cmds: Vec<Command>)
        requires
            old(self).wf(),
            grid.wf(),
        ensures
            final(self).wf(),
            final(self)@ == (RendererView {
                pending: frame_of(grid@, old(self)@.cols as nat, old(self)@.rows as nat),
                ..old(self)@
            }),
            commands_view(cmds@) == frame_commands(old(self)@, grid@, *mode, tick, fps),
    {
        let cols = self.cols;
        let rows = self.char_rows;
        let ghost frame = frame_of(grid@, cols as nat, rows as nat);
        let ghost start = self@;
        let mut row: u16 = 0;
        while row < rows
            invariant
                self.wf(),
                self@ == (RendererView { pending: self.next@, ..start }),
                cols == self.cols,
                rows == self.char_rows,
                grid.wf(),
                frame == frame_of(grid@, cols as nat, rows as nat),
                row <= rows,
                forall|j: int| 0 <= j < row * cols ==> #[trigger] self.next@[j] == frame[j],
            decreases rows - row,
        {
            let mut col: u16 = 0;
            while col < cols
                invariant
                    self.wf(),
                    self@ == (RendererView { pending: self.next@, ..start }),
                    cols == self.cols,
                    rows == self.char_rows,
                    grid.wf(),
                    frame == frame_of(grid@, cols as nat, rows as nat),
                    row < rows,
                    col <= cols,
                    forall|j: int| 0 <= j < row * cols + col ==> #[trigger] self.next@[j] == frame[j],
                decreases cols - col,
            {
                let top = grid.get(col as usize, (row as usize) * 2);
                let bot = grid.get(col as usize, (row as usize) * 2 + 1);
                let i = self.idx(col, row);
                self.next.set(i, CharCell { top, bot });
                col = col + 1;
            }
            assert((row + 1) * cols == row * cols + cols) by (nonlinear_arith);
            row = row + 1;
        }
        assert(self.next@ =~= frame) by {
            assert(rows * cols == cols * rows) by (nonlinear_arith);
        }

        let force = self.force_full;
        let mut cmds: Vec<Command> = Vec::new();
        let mut fg_set = false;
        let mut row: u16 = 0;
        while row < rows
            invariant
                self.wf(),
                self@ == (RendererView { pending: self.next@, ..start }),
                self.next@ == frame,
                force == start.force_full,
                cols == self.cols,
                rows == self.char_rows,
                row <= rows,
                commands_view(cmds@) == draw_cells(start.shown, frame, force, cols as int, row * cols).0,
                fg_set == draw_cells(start.shown, frame, force, cols as int, row * cols).1,
            decreases rows - row,
        {
            let mut col: u16 = 0;
            while col < cols
                invariant
                    self.wf(),
                    self@ == (RendererView { pending: self.next@, ..start }),
                    self.next@ == frame,
                    force == start.force_full,
                    cols == self.cols,
                    rows == self.char_rows,
                    row < rows,
                    col <= cols,
                    commands_view(cmds@) == draw_cells(start.shown, frame, force, cols as int, row * cols + col).0,
                    fg_set == draw_cells(start.shown, frame, force, cols as int, row * cols + col).1,
                decreases cols - col,
            {
                let i = self.idx(col, row);
                let cell = self.next[i];
                let ghost before = cmds@;
                if force || cell != self.prev[i] {
                    cmds.push(Command::MoveTo(col, row));
                    if !cell.top && !cell.bot {
                        if fg_set {
                            cmds.push(Command::ResetColor);
                            fg_set = false;
                        }
                        cmds.push(Command::PrintChar(' '));
                    } else if cell.top && cell.bot {
                        if !fg_set {
                            cmds.push(Command::SetForeground(Color::White));
                            fg_set = true;
                        }
                        cmds.push(Command::PrintChar('█'));
                    } else if cell.top {
                        if !fg_set {
                            cmds.push(Command::SetForeground(Color::White));
                            fg_set = true;
                        }
                        cmds.push(Command::PrintChar('▀'));
                    } else {
                        if !fg_set {
                            cmds.push(Command::SetForeground(Color::White));
                            fg_set = true;
                        }
                        cmds.push(Command::PrintChar('▄'));
                    }
                    assert(commands_view(cmds@) =~= commands_view(before) + draw_cell(
                        cell,
                        col as int,
                        row as int,
                        draw_cells(start.shown, frame, force, cols as int, row * cols + col).1,
                    ).0);
                }
                col = col + 1;
            }
            assert((row + 1) * cols == row * cols + cols) by (nonlinear_arith);
            row = row + 1;
        }
        assert(rows * cols == frame.len()) by {
            assert(rows * cols == cols * rows) by (nonlinear_arith);
        }
        let ghost cell_cmds = commands_view(cmds@);
        cmds.push(Command::ResetColor);
        let status = self.draw_status(mode, tick, fps);
        let ghost status_view = commands_view(status@);
        let mut status = status;
        cmds.append(&mut status);
        match mode {
            Mode::Editing { cx, cy } => {
                let last = self.char_rows.saturating_sub(1);
                let row = if *cy / 2 < last { *cy / 2 } else { last };
                cmds.push(Command::ShowCursor);
                cmds.push(Command::MoveTo(*cx, row));
            },
            _ => {
                cmds.push(Command::HideCursor);
            },
        }
        assert(commands_view(cmds@) =~= cell_cmds + seq![CommandView::ResetColor] + status_view
            + cursor_commands(rows, *mode));
        cmds
    }

    /// Records that the frame computed last is on screen: it becomes the
    /// frame the next one is compared with, and no full redraw is due.
    pub fn mark_shown(&mut self)
        requires
            old(self).wf(),
        ensures
            final(self).wf(),
            final(self)@ == (RendererView {
                shown: old(self)@.pending,
                pending: old(self)@.shown,
                force_full: false,
                ..old(self)@
            }),
    {
        std::mem::swap(&mut self.prev, &mut self.next);
        self.force_full = false;
    }

    /// The index of the character cell at `(col, row)` in the buffers.
    fn idx(&self, col: u16, row: u16) -> (i: usize)
        requires
            self.wf(),
            col < self.cols,
            row < self.char_rows,
        ensures
            i == row * self.cols + col,
            i < self.prev.len(),
            i as int % self.cols as int == col,
            i as int / self.cols as int == row,
    {
        proof {
            lemma_cell_decode(self.cols as int, self.char_rows as int, col as int, row as int);
        }
        row as usize * self.cols as usize + col as usize
    }
}

} // verus!
