use vstd::prelude::*;
use crate::grid::{Board, Grid};
use crate::patterns::{
    added_with_margin, all_dead, catalog_fits, log_draws, only_adds, scatter, scatter_done, scatter_size_ok, ScatterLog,
};
use crate::random::Draws;
use crate::render::{fresh_view, Renderer, RendererView};

verus! {

/// What the application is doing: running the simulation, paused, or
/// editing with the cursor at grid cell `(cx, cy)`.
#[derive(Clone, Copy, Debug, PartialEq, Eq, Structural)]
pub enum Mode {
    Running,
    Paused,
    Editing { cx: u16, cy: u16 },
}

/// The application: the grid, the renderer, the mode, the generation count,
/// the target speed in ticks per second, whether to quit, and the random
/// generator that scattering draws from.
pub struct App {
    pub grid: Grid,
    pub renderer: Renderer,
    pub mode: Mode,
    pub tick_count: u64,
    pub fps: u32,
    pub quit: bool,
    pub rng: Draws,
}

/// Scattering handles a board of this size (see `scatter_size_ok`).
pub open spec fn scatter_ok(b: Board) -> bool {
    scatter_size_ok(b.w as int, b.h as int)
}

/// A scatter over the dead board `before` that leaves `after` brings some
/// cell to life when every pattern of the catalog fits on the board.
pub open spec fn scatter_filled(before: Board, after: Board) -> bool {
    10 <= before.w && 10 <= before.h && catalog_fits(before.w as int, before.h as int) ==> !all_dead(after)
}

/// A scatter took `before` to `after` while the draws made went from
/// `drawn_before` to `drawn_after`: some log of attempts does both, its
/// draws being exactly those added. In particular a board narrower or lower
/// than 10 cells is left as it was, with nothing drawn.
pub open spec fn scattered(
    before: Board,
    after: Board,
    drawn_before: Seq<(u32, u32)>,
    drawn_after: Seq<(u32, u32)>,
) -> bool {
    exists|log: ScatterLog|
        #[trigger] scatter_done(before, after, log) && drawn_after == drawn_before + log_draws(log.attempts)
}

/// The number of character rows left for cells on a terminal of `rows` rows:
/// the last row holds the status line.
pub open spec fn cell_rows(rows: u16) -> u16 {
    rows.saturating_sub(1)
}

/// The grid height for a terminal of `rows` rows: two grid rows per
/// character row.
pub open spec fn grid_rows(rows: u16) -> nat {
    (cell_rows(rows) * 2) as nat
}

/// A grid of `cols` columns and `grid_rows(rows)` rows fits in memory.
pub open spec fn size_ok(cols: u16, rows: u16) -> bool {
    cols * grid_rows(rows) <= usize::MAX
}

/// Edit mode with the cursor at the centre of board `b`, its sides taken as
/// 16-bit numbers.
pub open spec fn centre_cursor(b: Board) -> Mode {
    Mode::Editing { cx: ((b.w as u16) / 2) as u16, cy: ((b.h as u16) / 2) as u16 }
}

/// The renderer state `r` after an invalidation.
pub open spec fn invalidated(r: RendererView) -> RendererView {
    RendererView { force_full: true, ..r }
}

/// `new` is `old` advanced by one generation, with the count one higher.
pub open spec fn ticked(old: App, new: App) -> bool {
    &&& new.grid@ == old.grid@.step()
    &&& new.tick_count == old.tick_count + 1
    &&& new.mode == old.mode
    &&& new.fps == old.fps
    &&& new.quit == old.quit
    &&& new.renderer == old.renderer
    &&& new.rng == old.rng
}

/// `new` is `old` with a fresh scatter of patterns on a cleared grid,
/// running from generation 0 and fully redrawn next; a grid narrower or
/// lower than 10 cells stays cleared and nothing is drawn from the
/// generator.
pub open spec fn reset_done(old: App, new: App) -> bool {
    &&& scattered(old.grid@.cleared(), new.grid@, old.rng@, new.rng@)
    &&& (old.grid@.w < 10 || old.grid@.h < 10) ==> new.grid@ == old.grid@.cleared() && new.rng == old.rng
    &&& only_adds(old.grid@.cleared(), new.grid@)
    &&& added_with_margin(old.grid@.cleared(), new.grid@)
    &&& scatter_filled(old.grid@.cleared(), new.grid@)
    &&& new.tick_count == 0
    &&& new.mode == Mode::Running
    &&& new.renderer@ == invalidated(old.renderer@)
    &&& new.fps == old.fps
    &&& new.quit == old.quit
}

/// `new` is `old` in edit mode with the cursor at the centre, the grid
/// cleared first when `clear_first` holds, and fully redrawn next.
pub open spec fn edit_entered(old: App, new: App, clear_first: bool) -> bool {
    &&& new.grid@ == (if clear_first { old.grid@.cleared() } else { old.grid@ })
    &&& new.mode == centre_cursor(old.grid@)
    &&& new.renderer@ == invalidated(old.renderer@)
    &&& new.tick_count == old.tick_count
    &&& new.fps == old.fps
    &&& new.quit == old.quit
    &&& new.rng == old.rng
}

/// `new` is `old` adapted to a terminal of `cols` by `rows`: a dead grid of
/// the new size and a fresh renderer; in edit mode the cursor goes to the
/// centre, otherwise patterns are scattered anew and the count restarts.
pub open spec fn resized(old: App, new: App, cols: u16, rows: u16) -> bool {
    let dead = Board::dead(cols as nat, grid_rows(rows));
    &&& new.renderer@ == fresh_view(cols, cell_rows(rows))
    &&& new.fps == old.fps
    &&& new.quit == old.quit
    &&& if old.mode is Editing {
        &&& new.grid@ == dead
        &&& new.mode == centre_cursor(dead)
        &&& new.tick_count == old.tick_count
        &&& new.rng == old.rng
    } else {
        &&& scattered(dead, new.grid@, old.rng@, new.rng@)
        &&& (dead.w < 10 || dead.h < 10) ==> new.grid@ == dead && new.rng == old.rng
        &&& only_adds(dead, new.grid@)
        &&& added_with_margin(dead, new.grid@)
        &&& scatter_filled(dead, new.grid@)
        &&& new.mode == Mode::Running
        &&& new.tick_count == 0
    }
}

/// What a resize needs: the new grid fits in memory, and can be scattered
/// over unless the application is editing.
pub open spec fn resize_ok(app: App, cols: u16, rows: u16) -> bool {
    &&& size_ok(cols, rows)
    &&& !(app.mode is Editing) ==> scatter_ok(Board::dead(cols as nat, grid_rows(rows)))
}

impl App {
    /// The grid and the renderer are well formed.
    pub open spec fn wf(&self) -> bool {
        self.grid.wf() && self.renderer.wf()
    }

    /// An application for a terminal of `cols` by `rows` characters: the
    /// last row is the status line, each other character shows two grid
    /// rows. In edit mode the grid starts blank with the cursor at its
    /// centre; otherwise patterns are scattered and the simulation runs.
    pub fn new(cols: u16, rows: u16, fps: u32, edit_mode: bool) -> (app: Self)
        requires
            size_ok(cols, rows),
            !edit_mode ==> scatter_ok(Board::dead(cols as nat, grid_rows(rows))),
        ensures
            app.wf(),
            app.renderer@ == fresh_view(cols, cell_rows(rows)),
            app.tick_count == 0,
            app.fps == fps,
            !app.quit,
            edit_mode ==> app.grid@ == Board::dead(cols as nat, grid_rows(rows)),
            edit_mode ==> app.mode == centre_cursor(Board::dead(cols as nat, grid_rows(rows))),
            edit_mode ==> app.rng@ == Seq::<(u32, u32)>::empty(),
            !edit_mode ==> scattered(Board::dead(cols as nat, grid_rows(rows)), app.grid@, Seq::empty(), app.rng@),
            !edit_mode && (cols < 10 || grid_rows(rows) < 10) ==> app.grid@ == Board::dead(
                cols as nat,
                grid_rows(rows),
            ),
            !edit_mode ==> only_adds(Board::dead(cols as nat, grid_rows(rows)), app.grid@),
            !edit_mode ==> added_with_margin(Board::dead(cols as nat, grid_rows(rows)), app.grid@),
            !edit_mode ==> scatter_filled(Board::dead(cols as nat, grid_rows(rows)), app.grid@),
            !edit_mode ==> app.mode == Mode::Running,
    {
        let char_rows = rows.saturating_sub(1);
        assert(cols * char_rows <= cols * grid_rows(rows)) by (nonlinear_arith)
            requires
                grid_rows(rows) == char_rows * 2,
        ;
        let mut grid = Grid::new(cols as usize, (char_rows as usize) * 2);
        let renderer = Renderer::new(cols, char_rows);
        let mut rng = Draws::new();
        let mode = if edit_mode {
            let cx = grid.width() as u16 / 2;
            let cy = grid.height() as u16 / 2;
            Mode::Editing { cx, cy }
        } else {
            proof {
                crate::grid::lemma_dead_has_no_live_cell(grid@.w, grid@.h);
            }
            let ghost before = grid@;
            let ghost drawn = rng@;
            let log = scatter(&mut grid, &mut rng);
            assert(scatter_done(before, grid@, log@) && rng@ == drawn + log_draws(log@.attempts));
            Mode::Running
        };
        App { grid, renderer, mode, tick_count: 0, fps, quit: false, rng }
    }

    /// Advances the simulation by one generation and counts it.
    pub fn tick(&mut self)
        requires
            old(self).wf(),
            old(self).tick_count < u64::MAX,
        ensures
            final(self).wf(),
            ticked(*old(self), *final(self)),
    {
        self.grid.tick();
        self.tick_count = self.tick_count + 1;
    }

    /// Clears the grid, scatters new patterns, restarts the count and runs.
    pub fn reset_scatter(&mut self)
        requires
            old(self).wf(),
            scatter_ok(old(self).grid@),
        ensures
            final(self).wf(),
            reset_done(*old(self), *final(self)),
    {
        self.grid.clear();
        proof {
            crate::grid::lemma_dead_has_no_live_cell(self.grid@.w, self.grid@.h);
        }
        let ghost before = self.grid@;
        let ghost drawn = self.rng@;
        let log = scatter(&mut self.grid, &mut self.rng);
        assert(scatter_done(before, self.grid@, log@) && self.rng@ == drawn + log_draws(log@.attempts));
        self.tick_count = 0;
        self.mode = Mode::Running;
        self.renderer.invalidate();
    }

    /// Enters edit mode with the cursor at the centre of the grid, clearing
    /// the grid first when asked to.
    pub fn enter_edit(&mut self, clear_first: bool)
        requires
            old(self).wf(),
        ensures
            final(self).wf(),
            edit_entered(*old(self), *final(self), clear_first),
    {
        if clear_first {
            self.grid.clear();
        }
        let cx = self.grid.width() as u16 / 2;
        let cy = self.grid.height() as u16 / 2;
        self.mode = Mode::Editing { cx, cy };
        self.renderer.invalidate();
    }

    /// Adapts to a terminal of `cols` by `rows` characters.
    pub fn handle_resize(&mut self, cols: u16, rows: u16)
        requires
            old(self).wf(),
            resize_ok(*old(self), cols, rows),
        ensures
            final(self).wf(),
            resized(*old(self), *final(self), cols, rows),
    {
        let char_rows = rows.saturating_sub(1);
        let new_w = cols as usize;
        let new_h = (char_rows as usize) * 2;
        let was_editing = matches!(self.mode, Mode::Editing { .. });
        assert(cols * char_rows <= cols * grid_rows(rows)) by (nonlinear_arith)
            requires
                grid_rows(rows) == char_rows * 2,
        ;
        self.grid.resize(new_w, new_h);
        self.renderer.resize(cols, char_rows);
        if was_editing {
            self.mode = Mode::Editing { cx: self.grid.width() as u16 / 2, cy: self.grid.height() as u16 / 2 };
        } else {
            proof {
                crate::grid::lemma_dead_has_no_live_cell(self.grid@.w, self.grid@.h);
            }
            let ghost before = self.grid@;
            let ghost drawn = self.rng@;
            let log = scatter(&mut self.grid, &mut self.rng);
            assert(scatter_done(before, self.grid@, log@) && self.rng@ == drawn + log_draws(log@.attempts));
            self.tick_count = 0;
            self.mode = Mode::Running;
        }
    }

    /// How long to wait for input before the next tick, in milliseconds:
    /// a second divided by the target speed (at least one tick per second).
    pub fn poll_timeout_ms(&self) -> (ms: u64)
        ensures
            ms == 1000int / (if self.fps >= 1 { self.fps as int } else { 1int }),
    {
        let f: u32 = if self.fps >= 1 { self.fps } else { 1 };
        1000 / f as u64
    }

    /// What happens when no input came before the timeout: a running
    /// simulation advances one generation; otherwise nothing changes.
    pub fn on_idle(&mut self)
        requires
            old(self).wf(),
            old(self).mode is Running ==> old(self).tick_count < u64::MAX,
        ensures
            final(self).wf(),
            old(self).mode is Running ==> ticked(*old(self), *final(self)),
            !(old(self).mode is Running) ==> *final(self) == *old(self),
    {
        if matches!(self.mode, Mode::Running) {
            self.tick();
        }
    }
}

} // verus!
