use vstd::prelude::*;
use crate::app::{
    edit_entered, reset_done, resize_ok, resized, scatter_ok, ticked, invalidated, App, Mode,
};

verus! {

/// The key of a key event.
#[derive(Clone, Copy, Debug, PartialEq, Eq, Structural)]
pub enum KeyCode {
    Char(char),
    Esc,
    Enter,
    Left,
    Right,
    Up,
    Down,
    /// Any other key.
    Other,
}

/// Whether a key went down, repeats, or went up.
#[derive(Clone, Copy, Debug, PartialEq, Eq, Structural)]
pub enum KeyKind {
    Press,
    Repeat,
    Release,
}

/// A key event: the key, its kind, and whether Control was held.
#[derive(Clone, Copy, Debug)]
pub struct KeyInput {
    pub code: KeyCode,
    pub kind: KeyKind,
    pub ctrl: bool,
}

/// An input event from the terminal.
#[derive(Clone, Copy, Debug)]
pub enum Event {
    Key(KeyInput),
    /// The terminal now has this many columns and rows.
    Resize(u16, u16),
    /// Any other event (mouse, focus, paste).
    Other,
}

/// What a key asks the application to do.
#[derive(Clone, Copy, Debug, PartialEq, Eq, Structural)]
pub enum Action {
    Nothing,
    Quit,
    SetMode(Mode),
    /// Advance one generation.
    Step,
    /// Clear and scatter anew.
    Reset,
    /// Two more ticks per second, at most 60.
    Faster,
    /// Two fewer ticks per second, at least 1.
    Slower,
    /// Enter edit mode, clearing the grid first when the flag is set.
    Edit(bool),
    ClearGrid,
    Toggle(u16, u16),
}

/// The action a key asks for, given the mode and the grid's size as 16-bit
/// numbers. Only presses count. Control-C quits in every mode. While the
/// simulation runs or pauses: `q` quits, space pauses or resumes, `n` steps
/// when paused, `r` resets, `+`/`=` and `-`/`_` change the speed, `e` and `E`
/// enter edit mode (`E` on a cleared grid). While editing (on a grid with
/// cells): `q` quits, Esc pauses, Enter runs, `c` clears, space toggles the
/// cell under the cursor, and `h j k l` or the arrows move the cursor,
/// wrapping around the edges.
pub open spec fn key_action(mode: Mode, w: u16, h: u16, key: KeyInput) -> Action {
    if !(key.kind is Press) {
        Action::Nothing
    } else if key.ctrl && key.code == KeyCode::Char('c') {
        Action::Quit
    } else {
        match mode {
            Mode::Editing { cx, cy } => {
                if w == 0 || h == 0 {
                    Action::Nothing
                } else {
                    match key.code {
                        KeyCode::Char('q') => Action::Quit,
                        KeyCode::Esc => Action::SetMode(Mode::Paused),
                        KeyCode::Enter => Action::SetMode(Mode::Running),
                        KeyCode::Char('c') => Action::ClearGrid,
                        KeyCode::Char(' ') => Action::Toggle(cx, cy),
                        KeyCode::Char('h') | KeyCode::Left => Action::SetMode(
                            Mode::Editing { cx: if cx == 0 { (w - 1) as u16 } else { (cx - 1) as u16 }, cy },
                        ),
                        KeyCode::Char('l') | KeyCode::Right => Action::SetMode(
                            Mode::Editing { cx: ((cx + 1) % (w as int)) as u16, cy },
                        ),
                        KeyCode::Char('k') | KeyCode::Up => Action::SetMode(
                            Mode::Editing { cx, cy: if cy == 0 { (h - 1) as u16 } else { (cy - 1) as u16 } },
                        ),
                        KeyCode::Char('j') | KeyCode::Down => Action::SetMode(
                            Mode::Editing { cx, cy: ((cy + 1) % (h as int)) as u16 },
                        ),
                        _ => Action::Nothing,
                    }
                }
            },
            _ => match key.code {
                KeyCode::Char('q') => Action::Quit,
                KeyCode::Char(' ') => Action::SetMode(
                    if mode is Running { Mode::Paused } else { Mode::Running },
                ),
                KeyCode::Char('n') => if mode is Paused { Action::Step } else { Action::Nothing },
                KeyCode::Char('r') => Action::Reset,
                KeyCode::Char('+') | KeyCode::Char('=') => Action::Faster,
                KeyCode::Char('-') | KeyCode::Char('_') => Action::Slower,
                KeyCode::Char('e') => Action::Edit(false),
                KeyCode::Char('E') => Action::Edit(true),
                _ => Action::Nothing,
            },
        }
    }
}

/// The action a key asks of `app`.
pub open spec fn app_key_action(app: App, key: KeyInput) -> Action {
    key_action(app.mode, app.grid@.w as u16, app.grid@.h as u16, key)
}

/// What carrying out `a` needs: a step needs room in the count, a reset a
/// grid that scattering can handle, a speed-up room for two more.
pub open spec fn action_ok(app: App, a: Action) -> bool {
    match a {
        Action::Step => app.tick_count < u64::MAX,
        Action::Reset => scatter_ok(app.grid@),
        Action::Faster => app.fps <= u32::MAX - 2,
        _ => true,
    }
}

/// Moving the cursor right or down adds one to its coordinate, which must
/// stay within 16 bits. This concerns only a press other than Control-C, in
/// edit mode, on a grid that has cells (its sides taken as 16-bit numbers);
/// every other key leaves the cursor alone.
pub open spec fn move_ok(mode: Mode, w: u16, h: u16, key: KeyInput) -> bool {
    match mode {
        Mode::Editing { cx, cy } => {
            key.kind is Press && !(key.ctrl && key.code == KeyCode::Char('c')) && w > 0 && h > 0 ==> {
                &&& (key.code == KeyCode::Char('l') || key.code == KeyCode::Right) ==> cx < u16::MAX
                &&& (key.code == KeyCode::Char('j') || key.code == KeyCode::Down) ==> cy < u16::MAX
            }
        },
        _ => true,
    }
}

/// What handling key `k` needs.
pub open spec fn key_ok(app: App, k: KeyInput) -> bool {
    action_ok(app, app_key_action(app, k)) && move_ok(app.mode, app.grid@.w as u16, app.grid@.h as u16, k)
}

/// `new` is `old` after carrying out `a`.
pub open spec fn applied(old: App, new: App, a: Action) -> bool {
    match a {
        Action::Nothing => new == old,
        Action::Quit => new == (App { quit: true, ..old }),
        Action::SetMode(m) => new == (App { mode: m, ..old }),
        Action::Step => ticked(old, new),
        Action::Reset => reset_done(old, new),
        Action::Faster => new == (App { fps: if old.fps + 2 < 60 { (old.fps + 2) as u32 } else { 60 }, ..old }),
        Action::Slower => new == (App { fps: if old.fps > 3 { (old.fps - 2) as u32 } else { 1 }, ..old }),
        Action::Edit(clear) => edit_entered(old, new, clear),
        Action::ClearGrid => {
            &&& new.grid@ == old.grid@.cleared()
            &&& new.renderer@ == invalidated(old.renderer@)
            &&& new.mode == old.mode
            &&& new.tick_count == old.tick_count
            &&& new.fps == old.fps
            &&& new.quit == old.quit
            &&& new.rng == old.rng
        },
        Action::Toggle(x, y) => {
            &&& new.grid@ == old.grid@.flip(x as int, y as int)
            &&& new.renderer == old.renderer
            &&& new.mode == old.mode
            &&& new.tick_count == old.tick_count
            &&& new.fps == old.fps
            &&& new.quit == old.quit
            &&& new.rng == old.rng
        },
    }
}

/// What handling `ev` needs.
pub open spec fn event_ok(app: App, ev: Event) -> bool {
    match ev {
        Event::Key(k) => key_ok(app, k),
        Event::Resize(cols, rows) => resize_ok(app, cols, rows),
        Event::Other => true,
    }
}

/// `new` is `old` after handling `ev`: a key is carried out as its action, a
/// resize adapts to the new size, any other event changes nothing.
pub open spec fn handled(old: App, new: App, ev: Event) -> bool {
    match ev {
        Event::Key(k) => applied(old, new, app_key_action(old, k)),
        Event::Resize(cols, rows) => resized(old, new, cols, rows),
        Event::Other => new == old,
    }
}


/// Control-C quits, whatever the mode and the grid.
pub proof fn lemma_ctrl_c_quits(mode: Mode, w: u16, h: u16)
    ensures
        key_action(mode, w, h, KeyInput { code: KeyCode::Char('c'), kind: KeyKind::Press, ctrl: true })
            == Action::Quit,
{
}

/// Only key presses count: a repeat or a release asks for nothing.
pub proof fn lemma_only_presses_count(mode: Mode, w: u16, h: u16, key: KeyInput)
    requires
        !(key.kind is Press),
    ensures
        key_action(mode, w, h, key) == Action::Nothing,
{
}

/// In the simulation, space pauses a running simulation and resumes a paused
/// one, so pressing it twice comes back to where one started.
pub proof fn lemma_space_twice(mode: Mode, w: u16, h: u16, ctrl: bool)
    requires
        !(mode is Editing),
    ensures
        ({
            let space = KeyInput { code: KeyCode::Char(' '), kind: KeyKind::Press, ctrl };
            match key_action(mode, w, h, space) {
                Action::SetMode(m) => {
                    &&& !(m is Editing)
                    &&& (m is Running) != (mode is Running)
                    &&& key_action(m, w, h, space) == Action::SetMode(mode)
                },
                _ => false,
            }
        }),
{
}

/// Stepping by hand happens only while paused: `n` does nothing while the
/// simulation runs.
pub proof fn lemma_step_only_when_paused(w: u16, h: u16, ctrl: bool)
    ensures
        key_action(Mode::Running, w, h, KeyInput { code: KeyCode::Char('n'), kind: KeyKind::Press, ctrl })
            == Action::Nothing,
        key_action(Mode::Paused, w, h, KeyInput { code: KeyCode::Char('n'), kind: KeyKind::Press, ctrl })
            == Action::Step,
{
}

/// The cursor of edit mode is on the grid (when the grid, its sides taken as
/// 16-bit numbers, has cells at all).
pub open spec fn cursor_on_grid(app: App) -> bool {
    let w = app.grid@.w as u16;
    let h = app.grid@.h as u16;
    match app.mode {
        Mode::Editing { cx, cy } => w > 0 && h > 0 ==> cx < w && cy < h,
        _ => true,
    }
}

/// Handling any event keeps the edit cursor on the grid: moves wrap around
/// the edges, and entering edit mode or resizing puts it at the centre.
pub proof fn lemma_cursor_stays_on_grid(old: App, new: App, ev: Event)
    requires
        cursor_on_grid(old),
        handled(old, new, ev),
    ensures
        cursor_on_grid(new),
{
}

/// The speed stays between 1 and 60 ticks per second once it is there:
/// `+` stops at 60, `-` at 1, and nothing else changes it.
pub proof fn lemma_fps_stays_in_range(old: App, new: App, ev: Event)
    requires
        1 <= old.fps <= 60,
        handled(old, new, ev),
    ensures
        1 <= new.fps <= 60,
{
}

/// The key press with code `code`, Control not held.
pub open spec fn press(code: KeyCode) -> KeyInput {
    KeyInput { code, kind: KeyKind::Press, ctrl: false }
}

/// Moving the cursor one way and then back returns it where it was, the
/// moves wrapping around the edges: Left then Right, Right then Left, Up
/// then Down and Down then Up, on a grid with cells and a cursor on it.
pub proof fn lemma_moves_undo(cx: u16, cy: u16, w: u16, h: u16)
    requires
        0 < w,
        0 < h,
        cx < w,
        cy < h,
    ensures
        ({
            let start = Mode::Editing { cx, cy };
            let back = |m: Mode, c: KeyCode| key_action(m, w, h, press(c)) == Action::SetMode(start);
            &&& key_action(start, w, h, press(KeyCode::Left)) matches Action::SetMode(m) && back(m, KeyCode::Right)
            &&& key_action(start, w, h, press(KeyCode::Right)) matches Action::SetMode(m) && back(m, KeyCode::Left)
            &&& key_action(start, w, h, press(KeyCode::Up)) matches Action::SetMode(m) && back(m, KeyCode::Down)
            &&& key_action(start, w, h, press(KeyCode::Down)) matches Action::SetMode(m) && back(m, KeyCode::Up)
        }),
{
    vstd::arithmetic::div_mod::lemma_small_mod(cx as nat, w as nat);
    vstd::arithmetic::div_mod::lemma_small_mod(cy as nat, h as nat);
    vstd::arithmetic::div_mod::lemma_mod_self_0(w as int);
    vstd::arithmetic::div_mod::lemma_mod_self_0(h as int);
    if cx + 1 < w {
        vstd::arithmetic::div_mod::lemma_small_mod((cx + 1) as nat, w as nat);
    }
    if cy + 1 < h {
        vstd::arithmetic::div_mod::lemma_small_mod((cy + 1) as nat, h as nat);
    }
}

/// While the simulation runs or is paused, `r` resets: the grid keeps its
/// size, is cleared and gets a fresh scatter of patterns (every live cell
/// afterwards is a new one, away from the far edges), the count restarts at
/// 0, the simulation runs, the next frame redraws everything, and the speed
/// is kept.
pub proof fn lemma_r_resets(old: App, new: App, ctrl: bool)
    requires
        !(old.mode is Editing),
        handled(old, new, Event::Key(KeyInput { code: KeyCode::Char('r'), kind: KeyKind::Press, ctrl })),
    ensures
        new.tick_count == 0,
        new.mode == Mode::Running,
        new.fps == old.fps,
        !old.quit ==> !new.quit,
        new.renderer@.force_full,
        new.grid@.w == old.grid@.w,
        new.grid@.h == old.grid@.h,
        forall|x: int, y: int| #[trigger] new.grid@.alive(x, y) ==> x + 4 < new.grid@.w && y + 4 < new.grid@.h,
        (old.grid@.w < 10 || old.grid@.h < 10) ==> forall|x: int, y: int| !#[trigger] new.grid@.alive(x, y),
{
    crate::grid::lemma_cleared_is_dead(old.grid@);
}

/// While the simulation runs or is paused, `E` enters edit mode on a
/// cleared grid and `e` on the grid as it is, in both cases with the cursor
/// at the centre and the next frame redrawing everything; the count and the
/// speed are kept.
pub proof fn lemma_edit_keys(old: App, new: App, shift: bool, ctrl: bool)
    requires
        !(old.mode is Editing),
        handled(
            old,
            new,
            Event::Key(KeyInput { code: KeyCode::Char(if shift { 'E' } else { 'e' }), kind: KeyKind::Press, ctrl }),
        ),
    ensures
        new.mode == (Mode::Editing { cx: ((old.grid@.w as u16) / 2) as u16, cy: ((old.grid@.h as u16) / 2) as u16 }),
        new.grid@.w == old.grid@.w,
        new.grid@.h == old.grid@.h,
        shift ==> forall|x: int, y: int| !#[trigger] new.grid@.alive(x, y),
        !shift ==> new.grid@ == old.grid@,
        new.renderer@.force_full,
        new.tick_count == old.tick_count,
        new.fps == old.fps,
{
    crate::grid::lemma_cleared_is_dead(old.grid@);
}

/// While the simulation runs or is paused, `+` and `=` raise the speed by
/// two ticks per second up to 60, and `-` and `_` lower it by two down to 1;
/// nothing else changes.
pub proof fn lemma_speed_keys(old: App, new: App, c: char, ctrl: bool)
    requires
        !(old.mode is Editing),
        c == '+' || c == '=' || c == '-' || c == '_',
        handled(old, new, Event::Key(KeyInput { code: KeyCode::Char(c), kind: KeyKind::Press, ctrl })),
    ensures
        (c == '+' || c == '=') ==> new.fps == (if old.fps + 2 <= 60 { old.fps + 2 } else { 60 }),
        (c == '-' || c == '_') ==> new.fps == (if old.fps >= 3 { old.fps - 2 } else { 1 }),
        new.grid == old.grid,
        new.mode == old.mode,
        new.tick_count == old.tick_count,
        new.quit == old.quit,
{
}

/// `q` quits in every mode (while editing, on a grid with cells), and
/// changes nothing else.
pub proof fn lemma_q_quits(old: App, new: App, ctrl: bool)
    requires
        old.mode is Editing ==> old.grid@.w as u16 > 0 && old.grid@.h as u16 > 0,
        handled(old, new, Event::Key(KeyInput { code: KeyCode::Char('q'), kind: KeyKind::Press, ctrl })),
    ensures
        new.quit,
        new.grid == old.grid,
        new.mode == old.mode,
        new.tick_count == old.tick_count,
        new.fps == old.fps,
{
}

/// While editing a grid with cells: Esc pauses and Enter runs, keeping the
/// grid; `c` kills every cell and keeps the cursor; space flips the cell
/// under the cursor and no other.
pub proof fn lemma_edit_mode_keys(old: App, new: App, code: KeyCode, cx: u16, cy: u16)
    requires
        old.mode == (Mode::Editing { cx, cy }),
        old.grid.wf(),
        cx < old.grid@.w as u16,
        cy < old.grid@.h as u16,
        code == KeyCode::Esc || code == KeyCode::Enter || code == KeyCode::Char('c') || code == KeyCode::Char(' '),
        handled(old, new, Event::Key(KeyInput { code, kind: KeyKind::Press, ctrl: false })),
    ensures
        code == KeyCode::Esc ==> new.mode == Mode::Paused && new.grid == old.grid,
        code == KeyCode::Enter ==> new.mode == Mode::Running && new.grid == old.grid,
        code == KeyCode::Char('c') ==> new.mode == old.mode && forall|x: int, y: int|
            !#[trigger] new.grid@.alive(x, y),
        code == KeyCode::Char(' ') ==> new.mode == old.mode && forall|x: int, y: int|
            #[trigger] new.grid@.alive(x, y) == (if x == cx && y == cy {
                !old.grid@.alive(x, y)
            } else {
                old.grid@.alive(x, y)
            }),
        new.tick_count == old.tick_count,
        new.fps == old.fps,
{
    crate::grid::lemma_cleared_is_dead(old.grid@);
    old.grid.lemma_view_wf();
    if code == KeyCode::Char(' ') {
        assert forall|x: int, y: int| #[trigger] new.grid@.alive(x, y) == (if x == cx && y == cy {
            !old.grid@.alive(x, y)
        } else {
            old.grid@.alive(x, y)
        }) by {
            crate::grid::lemma_set_then_read(old.grid@, cx as int, cy as int, !old.grid@.alive(cx as int, cy as int), x, y);
        }
    }
}

/// Handles one input event.
pub fn handle(app: &mut App, event: Event)
    requires
        old(app).wf(),
        event_ok(*old(app), event),
    ensures
        final(app).wf(),
        handled(*old(app), *final(app), event),
{
    match event {
        Event::Key(key) => handle_key(app, key),
        Event::Resize(cols, rows) => app.handle_resize(cols, rows),
        _ => {},
    }
}

/// Handles a key in any mode.
fn handle_key(app: &mut App, key: KeyInput)
    requires
        old(app).wf(),
        key_ok(*old(app), key),
    ensures
        final(app).wf(),
        applied(*old(app), *final(app), app_key_action(*old(app), key)),
{
    if !matches!(key.kind, KeyKind::Press) {
        return;
    }
    if key.ctrl && matches!(key.code, KeyCode::Char('c')) {
        app.quit = true;
        return;
    }
    match app.mode {
        Mode::Running | Mode::Paused => handle_sim_key(app, key),
        Mode::Editing { .. } => handle_edit_key(app, key),
    }
}

/// Handles a key while the simulation runs or is paused.
fn handle_sim_key(app: &mut App, key: KeyInput)
    requires
        old(app).wf(),
        !(old(app).mode is Editing),
        key.kind is Press,
        !(key.ctrl && key.code == KeyCode::Char('c')),
        action_ok(*old(app), app_key_action(*old(app), key)),
    ensures
        final(app).wf(),
        applied(*old(app), *final(app), app_key_action(*old(app), key)),
        1 <= old(app).fps <= 60 ==> 1 <= final(app).fps <= 60,
        key.code == KeyCode::Char(' ') ==> final(app).mode == (if old(app).mode is Running {
            Mode::Paused
        } else {
            Mode::Running
        }),
{
    match key.code {
        KeyCode::Char('q') => app.quit = true,
        KeyCode::Char(' ') => {
            app.mode = match app.mode {
                Mode::Running => Mode::Paused,
                _ => Mode::Running,
            };
        },
        KeyCode::Char('n') => {
            if matches!(app.mode, Mode::Paused) {
                app.tick();
            }
        },
        KeyCode::Char('r') => app.reset_scatter(),
        KeyCode::Char('+') | KeyCode::Char('=') => {
            let f = app.fps + 2;
            app.fps = if f < 60 { f } else { 60 };
        },
        KeyCode::Char('-') | KeyCode::Char('_') => {
            let f = app.fps.saturating_sub(2);
            app.fps = if f > 1 { f } else { 1 };
        },
        KeyCode::Char('e') => app.enter_edit(false),
        KeyCode::Char('E') => app.enter_edit(true),
        _ => {},
    }
}

/// Handles a key in edit mode.
fn handle_edit_key(app: &mut App, key: KeyInput)
    requires
        old(app).wf(),
        old(app).mode is Editing,
        move_ok(old(app).mode, old(app).grid@.w as u16, old(app).grid@.h as u16, key),
        key.kind is Press,
        !(key.ctrl && key.code == KeyCode::Char('c')),
    ensures
        final(app).wf(),
        applied(*old(app), *final(app), app_key_action(*old(app), key)),
        cursor_on_grid(*old(app)) ==> cursor_on_grid(*final(app)),
{
    let (cx, cy) = if let Mode::Editing { cx, cy } = app.mode {
        (cx, cy)
    } else {
        return;
    };
    let w = app.grid.width() as u16;
    let h = app.grid.height() as u16;
    if w == 0 || h == 0 {
        return;
    }
    match key.code {
        KeyCode::Char('q') => app.quit = true,
        KeyCode::Esc => app.mode = Mode::Paused,
        KeyCode::Enter => app.mode = Mode::Running,
        KeyCode::Char('c') => {
            app.grid.clear();
            app.renderer.invalidate();
        },
        KeyCode::Char(' ') => app.grid.toggle(cx as usize, cy as usize),
        KeyCode::Char('h') | KeyCode::Left => {
            let new_cx = if cx == 0 { w - 1 } else { cx - 1 };
            app.mode = Mode::Editing { cx: new_cx, cy };
        },
        KeyCode::Char('l') | KeyCode::Right => {
            let new_cx = (cx + 1) % w;
            app.mode = Mode::Editing { cx: new_cx, cy };
        },
        KeyCode::Char('k') | KeyCode::Up => {
            let new_cy = if cy == 0 { h - 1 } else { cy - 1 };
            app.mode = Mode::Editing { cx, cy: new_cy };
        },
        KeyCode::Char('j') | KeyCode::Down => {
            let new_cy = (cy + 1) % h;
            app.mode = Mode::Editing { cx, cy: new_cy };
        },
        _ => {},
    }
}

} // verus!
