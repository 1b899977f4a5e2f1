use vstd::prelude::*;
use crate::app::Mode;
use crate::grid::Board;
use crate::render::{
    cursor_commands, draw_cell, draw_cells, fit, frame_commands, frame_of, glyph, lemma_cell_decode,
    status_commands, status_text, CharCell, Color, CommandView, RendererView,
};

verus! {

/// A model of the terminal: what each position shows (the character and
/// whether it was printed in white), where the cursor is, and whether the
/// foreground colour is white.
pub struct Term {
    pub screen: Map<(int, int), (char, bool)>,
    pub cursor: (int, int),
    pub white: bool,
}

/// What the terminal shows for a cell: its glyph, in white unless blank.
pub open spec fn look(c: CharCell) -> (char, bool) {
    (glyph(c), c.top || c.bot)
}

/// `t` after printing `text` at its cursor, one position per character.
pub open spec fn print_text(t: Term, text: Seq<char>) -> Term
    decreases text.len(),
{
    if text.len() == 0 {
        t
    } else {
        let u = print_text(t, text.drop_last());
        Term {
            screen: u.screen.insert(u.cursor, (text.last(), u.white)),
            cursor: (u.cursor.0 + 1, u.cursor.1),
            white: u.white,
        }
    }
}

/// `t` after carrying out one command. Background colours and the cursor's
/// visibility are not modelled.
pub open spec fn run_command(t: Term, c: CommandView) -> Term {
    match c {
        CommandView::MoveTo(col, row) => Term { cursor: (col as int, row as int), ..t },
        CommandView::SetForeground(color) => Term { white: color == Color::White, ..t },
        CommandView::ResetColor => Term { white: false, ..t },
        CommandView::PrintChar(ch) => print_text(t, seq![ch]),
        CommandView::PrintText(text) => print_text(t, text),
        _ => t,
    }
}

/// `t` after carrying out `cmds` in order.
pub open spec fn run_commands(t: Term, cmds: Seq<CommandView>) -> Term
    decreases cmds.len(),
{
    if cmds.len() == 0 {
        t
    } else {
        run_command(run_commands(t, cmds.drop_last()), cmds.last())
    }
}

/// The cells of `cells` with index below `upto`, on a terminal `cols` wide
/// and `rows` high, are on screen.
pub open spec fn shows(t: Term, cells: Seq<CharCell>, cols: int, rows: int, upto: int) -> bool {
    forall|col: int, row: int|
        0 <= col < cols && 0 <= row < rows && row * cols + col < upto ==> #[trigger] t.screen.contains_key(
            (col, row),
        ) && t.screen[(col, row)] == look(cells[row * cols + col])
}

/// `u` shows the same as `t` at every cell of a `cols` by `rows` terminal
/// with index `from` or more.
pub open spec fn keeps(t: Term, u: Term, cols: int, rows: int, from: int) -> bool {
    forall|col: int, row: int|
        0 <= col < cols && 0 <= row < rows && row * cols + col >= from ==> #[trigger] u.screen.contains_key(
            (col, row),
        ) == t.screen.contains_key((col, row)) && (t.screen.contains_key((col, row)) ==> u.screen[(col, row)]
            == t.screen[(col, row)])
}

/// Carrying out two runs of commands one after the other is carrying out
/// their concatenation.
pub proof fn lemma_run_append(t: Term, a: Seq<CommandView>, b: Seq<CommandView>)
    ensures
        run_commands(t, a + b) == run_commands(run_commands(t, a), b),
    decreases b.len(),
{
    if b.len() == 0 {
        assert(a + b =~= a);
    } else {
        lemma_run_append(t, a, b.drop_last());
        assert((a + b).drop_last() =~= a + b.drop_last());
        assert((a + b).last() == b.last());
    }
}

/// Carrying out a run of one command is carrying out that command.
proof fn lemma_run_one(t: Term, c: CommandView)
    ensures
        run_commands(t, seq![c]) == run_command(t, c),
{
    let e = seq![c].drop_last();
    assert(e =~= Seq::<CommandView>::empty());
    assert(run_commands(t, e) == t);
    assert(seq![c].last() == c);
}

/// Printing one character writes it at the cursor and moves the cursor on.
proof fn lemma_print_one(t: Term, ch: char)
    ensures
        print_text(t, seq![ch]) == (Term {
            screen: t.screen.insert(t.cursor, (ch, t.white)),
            cursor: (t.cursor.0 + 1, t.cursor.1),
            white: t.white,
        }),
{
    let e = seq![ch].drop_last();
    assert(e =~= Seq::<char>::empty());
    assert(print_text(t, e) == t);
    assert(seq![ch].last() == ch);
}

/// Index `i` of a `cols`-wide board with `rows` rows sits at column
/// `i % cols` of row `i / cols`, both in range.
proof fn lemma_index_split(i: int, cols: int, rows: int)
    requires
        0 < cols,
        0 <= i < cols * rows,
    ensures
        0 <= i % cols < cols,
        0 <= i / cols < rows,
        i == (i / cols) * cols + i % cols,
{
    vstd::arithmetic::div_mod::lemma_fundamental_div_mod(i, cols);
    vstd::arithmetic::div_mod::lemma_mod_pos_bound(i, cols);
    vstd::arithmetic::div_mod::lemma_div_pos_is_pos(i, cols);
    let q = i / cols;
    assert(q * cols == cols * q) by (nonlinear_arith);
    assert(q < rows) by (nonlinear_arith)
        requires
            i == q * cols + i % cols,
            0 <= i % cols,
            i < cols * rows,
            0 < cols,
    ;
}

/// After the commands that draw the first `n` cells, run from `t`, those
/// cells show `next`, white is set exactly as the drawing says, and every
/// later cell is as it was.
pub open spec fn drawn_ok(
    t: Term,
    prev: Seq<CharCell>,
    next: Seq<CharCell>,
    force: bool,
    cols: int,
    rows: int,
    n: int,
) -> bool {
    let u = run_commands(t, draw_cells(prev, next, force, cols, n).0);
    &&& shows(u, next, cols, rows, n)
    &&& u.white == draw_cells(prev, next, force, cols, n).1
    &&& keeps(t, u, cols, rows, n)
}

/// The sizes that the drawing of `n` cells is proved for.
pub open spec fn draw_bounds(prev: Seq<CharCell>, next: Seq<CharCell>, cols: int, rows: int, n: int) -> bool {
    &&& 0 < cols <= u16::MAX
    &&& 0 <= rows <= u16::MAX
    &&& prev.len() == cols * rows
    &&& next.len() == cols * rows
    &&& 0 < n <= cols * rows
}

/// A cell that is not drawn keeps showing what it showed.
#[verifier::spinoff_prover]
proof fn lemma_draw_skip(t: Term, prev: Seq<CharCell>, next: Seq<CharCell>, force: bool, cols: int, rows: int, n: int)
    requires
        draw_bounds(prev, next, cols, rows, n),
        drawn_ok(t, prev, next, force, cols, rows, n - 1),
        !force,
        next[n - 1] == prev[n - 1],
        shows(t, prev, cols, rows, cols * rows),
    ensures
        drawn_ok(t, prev, next, force, cols, rows, n),
{
    let u = run_commands(t, draw_cells(prev, next, force, cols, n - 1).0);
    let i = n - 1;
    lemma_index_split(i, cols, rows);
    let col = i % cols;
    let row = i / cols;
    assert(draw_cells(prev, next, force, cols, n) == draw_cells(prev, next, force, cols, n - 1));
    assert(i < cols * rows);
    assert(row * cols + col == i);
    assert(0 <= row < rows);
    assert(0 <= col < cols);
    assert(t.screen.contains_key((col, row)));
    assert(t.screen[(col, row)] == look(prev[i]));
    assert(u.screen.contains_key((col, row)));
    assert(shows(u, next, cols, rows, n - 1));
    assert(keeps(t, u, cols, rows, n - 1));
    assert forall|col2: int, row2: int|
        0 <= col2 < cols && 0 <= row2 < rows && row2 * cols + col2 < n implies #[trigger] u.screen.contains_key(
        (col2, row2),
    ) && u.screen[(col2, row2)] == look(next[row2 * cols + col2]) by {
        let j = row2 * cols + col2;
        if col2 == col && row2 == row {
            assert(j == i);
            assert(u.screen.contains_key((col, row)) == t.screen.contains_key((col, row)));
            assert(u.screen[(col, row)] == t.screen[(col, row)]);
        } else {
            if j == n - 1 {
                lemma_cell_decode(cols, rows, col2, row2);
            }
            assert(j < n - 1);
            assert(u.screen.contains_key((col2, row2)));
        }
    }
}

/// Drawing a cell moves to it, sets or resets the colour as needed and
/// prints its glyph there, touching no other cell.
#[verifier::spinoff_prover]
proof fn lemma_draw_one(t: Term, prev: Seq<CharCell>, next: Seq<CharCell>, force: bool, cols: int, rows: int, n: int)
    requires
        draw_bounds(prev, next, cols, rows, n),
        drawn_ok(t, prev, next, force, cols, rows, n - 1),
        force || next[n - 1] != prev[n - 1],
    ensures
        drawn_ok(t, prev, next, force, cols, rows, n),
{
    let (cmds, fg) = draw_cells(prev, next, force, cols, n - 1);
    let u = run_commands(t, cmds);
    assert(shows(u, next, cols, rows, n - 1));
    assert(keeps(t, u, cols, rows, n - 1));
    assert(u.white == fg);
    let i = n - 1;
    lemma_index_split(i, cols, rows);
    let col = i % cols;
    let row = i / cols;
    let c = next[i];
    let (more, fg2) = draw_cell(c, col, row, fg);
    assert(draw_cells(prev, next, force, cols, n) == (cmds + more, fg2));
    lemma_run_append(t, cmds, more);
    let v = run_commands(u, more);
    let mv = seq![CommandView::MoveTo(col as u16, row as u16)];
    lemma_run_one(u, CommandView::MoveTo(col as u16, row as u16));
    let w1 = run_commands(u, mv);
    if !c.top && !c.bot {
        let reset: Seq<CommandView> = if fg { seq![CommandView::ResetColor] } else { seq![] };
        let pr = seq![CommandView::PrintChar(' ')];
        assert(more =~= mv + reset + pr);
        lemma_run_append(u, mv + reset, pr);
        lemma_run_append(u, mv, reset);
        if fg {
            lemma_run_one(w1, CommandView::ResetColor);
        } else {
            assert(run_commands(w1, reset) == w1);
        }
        let w2 = run_commands(w1, reset);
        lemma_run_one(w2, CommandView::PrintChar(' '));
        lemma_print_one(w2, ' ');
        assert(v.screen == u.screen.insert((col, row), (' ', false)));
        assert(!v.white);
        assert(fg2 == false);
    } else {
        let set: Seq<CommandView> = if fg { seq![] } else { seq![CommandView::SetForeground(Color::White)] };
        let pr = seq![CommandView::PrintChar(glyph(c))];
        assert(more =~= mv + set + pr);
        lemma_run_append(u, mv + set, pr);
        lemma_run_append(u, mv, set);
        if !fg {
            lemma_run_one(w1, CommandView::SetForeground(Color::White));
        } else {
            assert(run_commands(w1, set) == w1);
        }
        let w2 = run_commands(w1, set);
        lemma_run_one(w2, CommandView::PrintChar(glyph(c)));
        lemma_print_one(w2, glyph(c));
        assert(v.screen == u.screen.insert((col, row), (glyph(c), true)));
        assert(v.white);
        assert(fg2 == true);
    }
    assert(v.screen == u.screen.insert((col, row), look(c)));
    assert forall|col2: int, row2: int|
        0 <= col2 < cols && 0 <= row2 < rows && row2 * cols + col2 < n implies #[trigger] v.screen.contains_key(
        (col2, row2),
    ) && v.screen[(col2, row2)] == look(next[row2 * cols + col2]) by {
        let j = row2 * cols + col2;
        if col2 == col && row2 == row {
            assert(j == i);
        } else {
            if j == n - 1 {
                lemma_cell_decode(cols, rows, col2, row2);
            }
            assert(j < n - 1);
            assert(u.screen.contains_key((col2, row2)));
        }
    }
    assert(run_commands(t, draw_cells(prev, next, force, cols, n).0) == v);
    assert(shows(v, next, cols, rows, n));
    assert(keeps(t, v, cols, rows, n)) by {
        assert forall|col2: int, row2: int|
            0 <= col2 < cols && 0 <= row2 < rows && row2 * cols + col2 >= n implies #[trigger] v.screen.contains_key(
            (col2, row2),
        ) == t.screen.contains_key((col2, row2)) && (t.screen.contains_key((col2, row2)) ==> v.screen[(col2, row2)]
            == t.screen[(col2, row2)]) by {
            if col2 == col && row2 == row {
                assert(row2 * cols + col2 == i);
            }
            assert(col2 != col || row2 != row);
            assert(u.screen.contains_key((col2, row2)) == t.screen.contains_key((col2, row2)));
            assert(v.screen.contains_key((col2, row2)) == u.screen.contains_key((col2, row2)));
            if t.screen.contains_key((col2, row2)) {
                assert(v.screen[(col2, row2)] == u.screen[(col2, row2)]);
                assert(u.screen[(col2, row2)] == t.screen[(col2, row2)]);
            }
        }
    }
}

/// Drawing only what changed is enough: on a terminal that shows `prev`
/// (any terminal, when every cell is forced), with white not set, the
/// commands that draw the first `n` cells leave those cells showing `next`,
/// each glyph in white and each blank in the default colour, leave every
/// later cell as it was, and leave white set exactly as the drawing says.
#[verifier::spinoff_prover]
pub proof fn lemma_drawing_shows_frame(
    t: Term,
    prev: Seq<CharCell>,
    next: Seq<CharCell>,
    force: bool,
    cols: int,
    rows: int,
    n: int,
)
    requires
        0 < cols <= u16::MAX,
        0 <= rows <= u16::MAX,
        prev.len() == cols * rows,
        next.len() == cols * rows,
        0 <= n <= cols * rows,
        force || shows(t, prev, cols, rows, cols * rows),
        !t.white,
    ensures
        drawn_ok(t, prev, next, force, cols, rows, n),
    decreases n,
{
    if n == 0 {
        assert forall|col: int, row: int|
            0 <= col < cols && 0 <= row < rows && row * cols + col < 0 implies #[trigger] t.screen.contains_key(
            (col, row),
        ) && t.screen[(col, row)] == look(next[row * cols + col]) by {
            assert(row * cols >= 0) by (nonlinear_arith)
                requires
                    0 <= row,
                    0 <= cols,
            ;
        }
        assert(draw_cells(prev, next, force, cols, 0).0 =~= Seq::<CommandView>::empty());
        assert(run_commands(t, draw_cells(prev, next, force, cols, 0).0) == t);
    } else {
        lemma_drawing_shows_frame(t, prev, next, force, cols, rows, n - 1);
        if !force && next[n - 1] == prev[n - 1] {
            lemma_draw_skip(t, prev, next, force, cols, rows, n);
        } else {
            lemma_draw_one(t, prev, next, force, cols, rows, n);
        }
    }
}


/// Printing text writes its characters one after another from the cursor,
/// in the current colour, moves the cursor past them, and touches nothing
/// else.
#[verifier::spinoff_prover]
pub proof fn lemma_print_text(t: Term, text: Seq<char>)
    ensures
        print_text(t, text).cursor == (t.cursor.0 + text.len(), t.cursor.1),
        print_text(t, text).white == t.white,
        forall|k: int|
            0 <= k < text.len() ==> #[trigger] print_text(t, text).screen.contains_key((t.cursor.0 + k, t.cursor.1))
                && print_text(t, text).screen[(t.cursor.0 + k, t.cursor.1)] == (text[k], t.white),
        forall|p: (int, int)|
            !(p.1 == t.cursor.1 && t.cursor.0 <= p.0 < t.cursor.0 + text.len()) ==> (
            #[trigger] print_text(t, text).screen.contains_key(p) == t.screen.contains_key(p) && (
            t.screen.contains_key(p) ==> print_text(t, text).screen[p] == t.screen[p])),
    decreases text.len(),
{
    if text.len() > 0 {
        let pre = text.drop_last();
        lemma_print_text(t, pre);
        let u = print_text(t, pre);
        let v = print_text(t, text);
        assert(v.screen == u.screen.insert(u.cursor, (text.last(), u.white)));
        assert(u.cursor == (t.cursor.0 + pre.len(), t.cursor.1));
        assert forall|k: int|
            0 <= k < text.len() implies #[trigger] v.screen.contains_key((t.cursor.0 + k, t.cursor.1))
                && v.screen[(t.cursor.0 + k, t.cursor.1)] == (text[k], t.white) by {
            if k < pre.len() {
                assert(u.screen.contains_key((t.cursor.0 + k, t.cursor.1)));
                assert((t.cursor.0 + k, t.cursor.1) != u.cursor);
                assert(pre[k] == text[k]);
            } else {
                assert(k == pre.len());
                assert(text[k] == text.last());
            }
        }
        assert forall|p: (int, int)|
            !(p.1 == t.cursor.1 && t.cursor.0 <= p.0 < t.cursor.0 + text.len()) implies (
            #[trigger] print_text(t, text).screen.contains_key(p) == t.screen.contains_key(p) && (
            t.screen.contains_key(p) ==> print_text(t, text).screen[p] == t.screen[p])) by {
            assert(u.screen.contains_key(p) == t.screen.contains_key(p));
        }
    }
}

/// A run of commands that prints nothing leaves the screen as it is.
proof fn lemma_run_no_print(t: Term, cmds: Seq<CommandView>)
    requires
        forall|k: int| 0 <= k < cmds.len() ==> !((#[trigger] cmds[k]) is PrintChar) && !(cmds[k] is PrintText),
    ensures
        run_commands(t, cmds).screen == t.screen,
    decreases cmds.len(),
{
    if cmds.len() > 0 {
        lemma_run_no_print(t, cmds.drop_last());
        assert(!(cmds[cmds.len() - 1] is PrintChar));
    }
}

/// Row `row` starts with `text`, printed in the default colour.
pub open spec fn shows_line(t: Term, text: Seq<char>, row: int) -> bool {
    forall|k: int| 0 <= k < text.len() ==> #[trigger] t.screen.contains_key((k, row)) && t.screen[(k, row)] == (
    text[k], false)
}

/// A frame puts the grid on screen: on a terminal that shows what the
/// renderer last drew (any terminal, when it must redraw everything), with
/// white not set, the commands of a frame leave every character cell showing
/// its two grid cells, leave the status line's text on the row below them,
/// and leave white unset.
#[verifier::spinoff_prover]
pub proof fn lemma_frame_shows_grid(t: Term, r: RendererView, g: Board, mode: Mode, tick: u64, fps: u32)
    requires
        r.shown.len() == r.cols * r.rows,
        r.force_full || shows(t, r.shown, r.cols as int, r.rows as int, r.cols * r.rows),
        !t.white,
    ensures
        ({
            let u = run_commands(t, frame_commands(r, g, mode, tick, fps));
            let text = fit(status_text(mode, tick, fps), r.cols as nat);
            &&& shows(u, frame_of(g, r.cols as nat, r.rows as nat), r.cols as int, r.rows as int, r.cols * r.rows)
            &&& shows_line(u, text, r.rows as int)
            &&& !u.white
        }),
{
    let cols = r.cols as int;
    let rows = r.rows as int;
    let frame = frame_of(g, r.cols as nat, r.rows as nat);
    let n = cols * rows;
    let cells = draw_cells(r.shown, frame, r.force_full, cols, n).0;
    let u1 = run_commands(t, cells);
    if cols > 0 {
        lemma_drawing_shows_frame(t, r.shown, frame, r.force_full, cols, rows, n);
    } else {
        assert(n == 0);
        assert(cells =~= Seq::<CommandView>::empty());
        assert forall|col: int, row: int|
            0 <= col < cols && 0 <= row < rows && row * cols + col < n implies #[trigger] u1.screen.contains_key(
            (col, row),
        ) && u1.screen[(col, row)] == look(frame[row * cols + col]) by {}
    }
    assert(shows(u1, frame, cols, rows, n));
    let text = fit(status_text(mode, tick, fps), r.cols as nat);
    let reset = seq![CommandView::ResetColor];
    let status = status_commands(r.cols, r.rows, mode, tick, fps);
    let cursor = cursor_commands(r.rows, mode);
    assert(frame_commands(r, g, mode, tick, fps) == cells + reset + status + cursor);
    lemma_run_append(t, cells + reset + status, cursor);
    lemma_run_append(t, cells + reset, status);
    lemma_run_append(t, cells, reset);
    lemma_run_one(u1, CommandView::ResetColor);
    let u2 = run_commands(u1, reset);
    assert(u2.screen == u1.screen && !u2.white);
    // the status line
    let s1 = seq![CommandView::MoveTo(0, r.rows), CommandView::SetForeground(Color::Black), CommandView::SetBackground(Color::White)];
    let s2 = seq![CommandView::PrintText(text)];
    let s3 = seq![CommandView::ResetColor];
    assert(status =~= s1 + s2 + s3);
    lemma_run_append(u2, s1 + s2, s3);
    lemma_run_append(u2, s1, s2);
    let v1 = run_commands(u2, s1);
    assert(v1 == Term { cursor: (0, rows), white: false, screen: u2.screen }) by {
        let a = seq![CommandView::MoveTo(0, r.rows)];
        let b = seq![CommandView::SetForeground(Color::Black)];
        let c = seq![CommandView::SetBackground(Color::White)];
        assert(s1 =~= a + b + c);
        lemma_run_append(u2, a + b, c);
        lemma_run_append(u2, a, b);
        lemma_run_one(u2, CommandView::MoveTo(0, r.rows));
        lemma_run_one(run_commands(u2, a), CommandView::SetForeground(Color::Black));
        lemma_run_one(run_commands(u2, a + b), CommandView::SetBackground(Color::White));
    }
    lemma_run_one(v1, CommandView::PrintText(text));
    let v2 = run_commands(v1, s2);
    lemma_print_text(v1, text);
    lemma_run_one(v2, CommandView::ResetColor);
    let v3 = run_commands(v2, s3);
    assert(v3.screen == v2.screen && !v3.white);
    // the cursor
    assert forall|k: int| 0 <= k < cursor.len() implies !((#[trigger] cursor[k]) is PrintChar) && !(cursor[k] is PrintText) by {}
    lemma_run_no_print(v3, cursor);
    let u = run_commands(v3, cursor);
    assert(u == run_commands(t, frame_commands(r, g, mode, tick, fps)));
    assert(!u.white) by {
        match mode {
            Mode::Editing { cx, cy } => {
                let last = r.rows.saturating_sub(1);
                let row = if cy / 2 < last { cy / 2 } else { last };
                let a = seq![CommandView::ShowCursor];
                let b = seq![CommandView::MoveTo(cx, row)];
                assert(cursor =~= a + b);
                lemma_run_append(v3, a, b);
                lemma_run_one(v3, CommandView::ShowCursor);
                lemma_run_one(run_commands(v3, a), CommandView::MoveTo(cx, row));
            },
            _ => {
                lemma_run_one(v3, CommandView::HideCursor);
            },
        }
    }
    assert(text.len() == cols);
    assert(shows(u, frame, cols, rows, n)) by {
        assert forall|col: int, row: int|
            0 <= col < cols && 0 <= row < rows && row * cols + col < n implies #[trigger] u.screen.contains_key(
            (col, row),
        ) && u.screen[(col, row)] == look(frame[row * cols + col]) by {
            assert(u1.screen.contains_key((col, row)));
            assert(v2.screen.contains_key((col, row)) == v1.screen.contains_key((col, row)));
        }
    }
    assert(shows_line(u, text, rows)) by {
        assert forall|k: int| 0 <= k < text.len() implies #[trigger] u.screen.contains_key((k, rows)) && u.screen[(
        k,
        rows,
        )] == (text[k], false) by {
            assert(v2.screen.contains_key((0 + k, rows)));
        }
    }
}



} // verus!
