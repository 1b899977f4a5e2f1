use conway::app::Mode;
use conway::grid::Grid;
use conway::render::{Color, Command, Renderer};

fn text(s: &str) -> Command {
    Command::PrintText(s.chars().collect())
}

fn padded(s: &str, width: usize) -> String {
    let mut t: String = s.chars().take(width).collect();
    while t.chars().count() < width {
        t.push(' ');
    }
    t
}

#[test]
fn new_renderer_keeps_size() {
    let r = Renderer::new(3, 2);
    assert_eq!((r.cols(), r.char_rows()), (3, 2));
}

#[test]
fn first_frame_draws_every_cell() {
    let mut r = Renderer::new(2, 1);
    let g = Grid::new(2, 2);
    let cmds = r.render(&g, &Mode::Running, 0, 12);
    let status = padded(" tick 0 | running | 12 fps | space=pause r=reset e=edit q=quit", 2);
    assert_eq!(
        cmds,
        vec![
            Command::MoveTo(0, 0),
            Command::PrintChar(' '),
            Command::MoveTo(1, 0),
            Command::PrintChar(' '),
            Command::ResetColor,
            Command::MoveTo(0, 1),
            Command::SetForeground(Color::Black),
            Command::SetBackground(Color::White),
            text(&status),
            Command::ResetColor,
            Command::HideCursor,
        ]
    );
}

#[test]
fn glyphs_show_both_halves() {
    let mut r = Renderer::new(4, 1);
    let mut g = Grid::new(4, 2);
    g.set(1, 0, true);
    g.set(2, 1, true);
    g.set(3, 0, true);
    g.set(3, 1, true);
    let cmds = r.render(&g, &Mode::Paused, 7, 3);
    assert_eq!(
        &cmds[..10],
        &[
            Command::MoveTo(0, 0),
            Command::PrintChar(' '),
            Command::MoveTo(1, 0),
            Command::SetForeground(Color::White),
            Command::PrintChar('▀'),
            Command::MoveTo(2, 0),
            Command::PrintChar('▄'),
            Command::MoveTo(3, 0),
            Command::PrintChar('█'),
            Command::ResetColor,
        ]
    );
}

#[test]
fn colour_is_reset_before_a_blank_after_a_glyph() {
    let mut r = Renderer::new(2, 1);
    let mut g = Grid::new(2, 2);
    g.set(0, 0, true);
    let cmds = r.render(&g, &Mode::Running, 0, 1);
    assert_eq!(
        &cmds[..7],
        &[
            Command::MoveTo(0, 0),
            Command::SetForeground(Color::White),
            Command::PrintChar('▀'),
            Command::MoveTo(1, 0),
            Command::ResetColor,
            Command::PrintChar(' '),
            Command::ResetColor,
        ]
    );
}

#[test]
fn unchanged_frame_redraws_no_cell() {
    let mut r = Renderer::new(3, 2);
    let mut g = Grid::new(3, 4);
    g.set(1, 1, true);
    let _ = r.render(&g, &Mode::Running, 0, 12);
    r.mark_shown();
    let cmds = r.render(&g, &Mode::Running, 1, 12);
    assert_eq!(cmds[0], Command::ResetColor);
    assert_eq!(cmds.len(), 1 + 5 + 1);
}

#[test]
fn only_changed_cells_are_redrawn() {
    let mut r = Renderer::new(3, 2);
    let mut g = Grid::new(3, 4);
    let _ = r.render(&g, &Mode::Running, 0, 12);
    r.mark_shown();
    g.set(2, 3, true);
    let cmds = r.render(&g, &Mode::Running, 1, 12);
    assert_eq!(
        &cmds[..4],
        &[
            Command::MoveTo(2, 1),
            Command::SetForeground(Color::White),
            Command::PrintChar('▄'),
            Command::ResetColor,
        ]
    );
}

#[test]
fn invalidate_forces_full_redraw() {
    let mut r = Renderer::new(2, 2);
    let g = Grid::new(2, 4);
    let _ = r.render(&g, &Mode::Running, 0, 12);
    r.mark_shown();
    r.invalidate();
    let cmds = r.render(&g, &Mode::Running, 0, 12);
    let moves = cmds.iter().filter(|c| matches!(c, Command::MoveTo(_, _))).count();
    assert_eq!(moves, 4 + 1);
}

#[test]
fn resize_forces_full_redraw_at_new_size() {
    let mut r = Renderer::new(2, 2);
    let g = Grid::new(2, 4);
    let _ = r.render(&g, &Mode::Running, 0, 12);
    r.mark_shown();
    r.resize(3, 1);
    assert_eq!((r.cols(), r.char_rows()), (3, 1));
    let g = Grid::new(3, 2);
    let cmds = r.render(&g, &Mode::Running, 0, 12);
    let moves = cmds.iter().filter(|c| matches!(c, Command::MoveTo(_, _))).count();
    assert_eq!(moves, 3 + 1);
}

#[test]
fn status_line_per_mode() {
    let g = Grid::new(80, 2);
    let mut r = Renderer::new(80, 1);
    let cmds = r.render(&g, &Mode::Running, 1234, 12);
    assert!(cmds.contains(&text(&padded(
        " tick 1234 | running | 12 fps | space=pause r=reset e=edit q=quit",
        80
    ))));
    let cmds = r.render(&g, &Mode::Paused, 0, 60);
    assert!(cmds.contains(&text(&padded(
        " tick 0 | PAUSED  | 60 fps | space=resume n=step r=reset e=edit q=quit",
        80
    ))));
    let cmds = r.render(&g, &Mode::Editing { cx: 40, cy: 1 }, 0, 60);
    assert!(cmds.contains(&text(&padded(
        " EDIT | cursor (40,1) | arrows=move space=toggle enter=run c=clear esc=back",
        80
    ))));
}

#[test]
fn status_line_is_cut_to_width() {
    let g = Grid::new(10, 2);
    let mut r = Renderer::new(10, 1);
    let cmds = r.render(&g, &Mode::Running, u64::MAX, u32::MAX);
    assert!(cmds.contains(&text(" tick 1844")));
}

#[test]
fn cursor_shown_in_edit_mode_on_its_character_row() {
    let g = Grid::new(10, 6);
    let mut r = Renderer::new(10, 3);
    let cmds = r.render(&g, &Mode::Editing { cx: 4, cy: 5 }, 0, 12);
    assert_eq!(&cmds[cmds.len() - 2..], &[Command::ShowCursor, Command::MoveTo(4, 2)]);
    // A cursor below the last row is kept on the last row.
    let cmds = r.render(&g, &Mode::Editing { cx: 1, cy: 40 }, 0, 12);
    assert_eq!(&cmds[cmds.len() - 2..], &[Command::ShowCursor, Command::MoveTo(1, 2)]);
    let cmds = r.render(&g, &Mode::Paused, 0, 12);
    assert_eq!(cmds[cmds.len() - 1], Command::HideCursor);
}

/// Carries out commands on a screen of characters, as a terminal would.
fn apply(screen: &mut Vec<Vec<(char, bool)>>, cmds: &[Command]) {
    let mut cur = (0usize, 0usize);
    let mut white = false;
    for c in cmds {
        match c {
            Command::MoveTo(col, row) => cur = (*col as usize, *row as usize),
            Command::SetForeground(c) => white = *c == Color::White,
            Command::ResetColor => white = false,
            Command::PrintChar(ch) => {
                screen[cur.1][cur.0] = (*ch, white);
                cur.0 += 1;
            }
            Command::PrintText(t) => {
                for ch in t {
                    screen[cur.1][cur.0] = (*ch, white);
                    cur.0 += 1;
                }
            }
            _ => {}
        }
    }
}

fn expected_glyph(g: &Grid, col: usize, row: usize) -> (char, bool) {
    match (g.get(col, 2 * row), g.get(col, 2 * row + 1)) {
        (false, false) => (' ', false),
        (true, true) => ('█', true),
        (true, false) => ('▀', true),
        (false, true) => ('▄', true),
    }
}

#[test]
fn frames_keep_the_screen_in_step_with_the_grid() {
    let (cols, rows) = (6usize, 3usize);
    let mut r = Renderer::new(cols as u16, rows as u16);
    let mut g = Grid::new(cols, 2 * rows);
    for &(x, y) in &[(1, 0), (2, 1), (0, 2), (1, 2), (2, 2)] {
        g.set(x, y, true);
    }
    let mut screen = vec![vec![('?', true); cols]; rows + 1];
    for step in 0..6 {
        let cmds = r.render(&g, &Mode::Running, step, 12);
        apply(&mut screen, &cmds);
        r.mark_shown();
        for row in 0..rows {
            for col in 0..cols {
                assert_eq!(screen[row][col], expected_glyph(&g, col, row));
            }
        }
        let status: String = screen[rows].iter().map(|c| c.0).collect();
        assert_eq!(status, padded(&format!(" tick {} | running | 12 fps", step), cols));
        g.tick();
    }
}
