use vstd::prelude::*;
use vstd::arithmetic::div_mod::lemma_fundamental_div_mod_converse;

verus! {

/// The mathematical board: `w` columns, `h` rows and the liveness of every
/// cell in row-major order (cell `(x, y)` sits at `y * w + x`).
pub struct Board {
    pub w: nat,
    pub h: nat,
    pub cells: Seq<bool>,
}

/// The coordinate before `i` on a ring of `n` positions.
pub open spec fn wrap_dec(i: int, n: int) -> int {
    if i == 0 { n - 1 } else { i - 1 }
}

/// The coordinate after `i` on a ring of `n` positions.
pub open spec fn wrap_inc(i: int, n: int) -> int {
    if i + 1 == n { 0 } else { i + 1 }
}

/// Conway's rule: a live cell with two or three live neighbours survives,
/// a dead cell with exactly three is born, every other cell is dead.
pub open spec fn next_state(alive: bool, n: int) -> bool {
    n == 3 || (alive && n == 2)
}

/// 1 for a live cell, 0 for a dead one.
pub open spec fn count(b: bool) -> int {
    if b { 1 } else { 0 }
}

impl Board {
    /// The cell sequence holds exactly one entry per cell.
    pub open spec fn wf(self) -> bool {
        self.cells.len() == self.w * self.h
    }

    /// Whether `(x, y)` is a cell of the board.
    pub open spec fn in_bounds(self, x: int, y: int) -> bool {
        0 <= x < self.w && 0 <= y < self.h
    }

    /// Whether cell `(x, y)` is live; a cell off the board is dead.
    pub open spec fn alive(self, x: int, y: int) -> bool {
        self.in_bounds(x, y) && self.cells[y * self.w + x]
    }

    /// The number of live cells among the eight neighbours of `(x, y)`, the
    /// board wrapping around at its edges (a torus).
    pub open spec fn neighbours(self, x: int, y: int) -> int {
        let w = self.w as int;
        let h = self.h as int;
        let xw = wrap_dec(x, w);
        let xe = wrap_inc(x, w);
        let yn = wrap_dec(y, h);
        let ys = wrap_inc(y, h);
        count(self.alive(xw, yn)) + count(self.alive(x, yn)) + count(self.alive(xe, yn))
            + count(self.alive(xw, y)) + count(self.alive(xe, y))
            + count(self.alive(xw, ys)) + count(self.alive(x, ys)) + count(self.alive(xe, ys))
    }

    /// The next generation: every cell follows Conway's rule at once.
    pub open spec fn step(self) -> Board {
        Board {
            w: self.w,
            h: self.h,
            cells: Seq::new(
                self.cells.len(),
                |i: int|
                    next_state(
                        self.alive(i % (self.w as int), i / (self.w as int)),
                        self.neighbours(i % (self.w as int), i / (self.w as int)),
                    ),
            ),
        }
    }

    /// The board with cell `(x, y)` made `v`; off the board nothing changes.
    pub open spec fn set(self, x: int, y: int, v: bool) -> Board {
        if self.in_bounds(x, y) {
            Board { w: self.w, h: self.h, cells: self.cells.update(y * self.w + x, v) }
        } else {
            self
        }
    }

    /// The board with cell `(x, y)` flipped; off the board nothing changes.
    pub open spec fn flip(self, x: int, y: int) -> Board {
        self.set(x, y, !self.alive(x, y))
    }

    /// The board moved `dx` columns right and `dy` rows down, what leaves
    /// one edge coming back in at the opposite edge.
    pub open spec fn shifted(self, dx: int, dy: int) -> Board {
        Board {
            w: self.w,
            h: self.h,
            cells: Seq::new(
                self.cells.len(),
                |i: int|
                    self.alive(
                        (i % (self.w as int) - dx) % (self.w as int),
                        (i / (self.w as int) - dy) % (self.h as int),
                    ),
            ),
        }
    }

    /// A `w` by `h` board with every cell dead.
    pub open spec fn dead(w: nat, h: nat) -> Board {
        Board { w, h, cells: Seq::new(w * h, |i: int| false) }
    }

    /// The same board with every cell dead.
    pub open spec fn cleared(self) -> Board {
        Board::dead(self.w, self.h)
    }
}

/// Cell `(x, y)` of a `w` by `h` board has an index below `w * h`.
pub proof fn lemma_index_in_range(w: int, h: int, x: int, y: int)
    requires
        0 <= x < w,
        0 <= y < h,
    ensures
        0 <= y * w + x < w * h,
{
    assert(0 <= y * w) by (nonlinear_arith)
        requires
            0 <= y,
            0 <= w,
    ;
    assert(y * w + x < w * h) by (nonlinear_arith)
        requires
            0 <= x < w,
            0 <= y < h,
    ;
}

/// Distinct cells have distinct indices, and an index gives back its cell.
pub proof fn lemma_index_decode(w: int, x: int, y: int)
    requires
        0 <= x < w,
        0 <= y,
    ensures
        (y * w + x) % w == x,
        (y * w + x) / w == y,
{
    lemma_fundamental_div_mod_converse(y * w + x, w, y, x);
}

/// Reading a cell after writing it gives back what was written, and every
/// other cell keeps its state.
pub proof fn lemma_set_then_read(b: Board, x: int, y: int, v: bool, x2: int, y2: int)
    requires
        b.wf(),
        b.in_bounds(x, y),
    ensures
        b.set(x, y, v).wf(),
        b.set(x, y, v).alive(x, y) == v,
        (x2 != x || y2 != y) ==> b.set(x, y, v).alive(x2, y2) == b.alive(x2, y2),
{
    lemma_index_in_range(b.w as int, b.h as int, x, y);
    if b.in_bounds(x2, y2) && (x2 != x || y2 != y) {
        lemma_index_in_range(b.w as int, b.h as int, x2, y2);
        lemma_index_decode(b.w as int, x, y);
        lemma_index_decode(b.w as int, x2, y2);
    }
}

/// Flipping the same cell twice gives back the board one started from.
pub proof fn lemma_flip_twice(b: Board, x: int, y: int)
    requires
        b.wf(),
    ensures
        b.flip(x, y).flip(x, y) == b,
{
    if b.in_bounds(x, y) {
        lemma_index_in_range(b.w as int, b.h as int, x, y);
        let i = y * b.w + x;
        assert(b.flip(x, y).flip(x, y).cells =~= b.cells);
    }
}

/// A generation keeps the board's size and shape.
pub proof fn lemma_step_keeps_size(b: Board)
    requires
        b.wf(),
    ensures
        b.step().wf(),
        b.step().w == b.w,
        b.step().h == b.h,
{
}

/// A dead board has no live cell anywhere.
pub proof fn lemma_dead_has_no_live_cell(w: nat, h: nat)
    ensures
        forall|x: int, y: int| !#[trigger] Board::dead(w, h).alive(x, y),
{
    let b = Board::dead(w, h);
    assert forall|x: int, y: int| !#[trigger] b.alive(x, y) by {
        if b.in_bounds(x, y) {
            lemma_index_in_range(w as int, h as int, x, y);
        }
    }
}

/// A board with no live cell stays without one: nothing is born from nothing.
pub proof fn lemma_dead_board_stays_dead(w: nat, h: nat)
    ensures
        Board::dead(w, h).step() == Board::dead(w, h),
{
    let b = Board::dead(w, h);
    lemma_dead_has_no_live_cell(w, h);
    assert forall|i: int| 0 <= i < b.cells.len() implies b.step().cells[i] == false by {
        let x = i % (w as int);
        let y = i / (w as int);
        assert(b.neighbours(x, y) == 0);
    }
    assert(b.step().cells =~= b.cells);
}

/// Moving back by `d` on a ring of `n` commutes with stepping to a
/// neighbour on the ring.
proof fn lemma_wrap_shift(x: int, d: int, n: int)
    requires
        0 <= x < n,
    ensures
        (wrap_dec(x, n) - d) % n == wrap_dec((x - d) % n, n),
        (wrap_inc(x, n) - d) % n == wrap_inc((x - d) % n, n),
        0 <= (x - d) % n < n,
{
    vstd::arithmetic::div_mod::lemma_fundamental_div_mod(x - d, n);
    vstd::arithmetic::div_mod::lemma_mod_bound(x - d, n);
    let q = (x - d) / n;
    let r = (x - d) % n;
    assert(x - d == q * n + r) by (nonlinear_arith)
        requires
            x - d == n * q + r,
    ;
    assert((q - 1) * n == q * n - n) by (nonlinear_arith);
    assert((q + 1) * n == q * n + n) by (nonlinear_arith);
    let e = wrap_dec(x, n) - d;
    if r > 0 {
        if x > 0 {
            lemma_fundamental_div_mod_converse(e, n, q, r - 1);
        } else {
            lemma_fundamental_div_mod_converse(e, n, q + 1, r - 1);
        }
    } else {
        if x > 0 {
            lemma_fundamental_div_mod_converse(e, n, q - 1, n - 1);
        } else {
            lemma_fundamental_div_mod_converse(e, n, q, n - 1);
        }
    }
    let f = wrap_inc(x, n) - d;
    if r + 1 < n {
        if x + 1 < n {
            lemma_fundamental_div_mod_converse(f, n, q, r + 1);
        } else {
            lemma_fundamental_div_mod_converse(f, n, q - 1, r + 1);
        }
    } else {
        if x + 1 < n {
            lemma_fundamental_div_mod_converse(f, n, q + 1, 0);
        } else {
            lemma_fundamental_div_mod_converse(f, n, q, 0);
        }
    }
}

/// A cell of a moved board is the cell it came from.
proof fn lemma_shifted_alive(b: Board, dx: int, dy: int, x: int, y: int)
    requires
        b.wf(),
        b.in_bounds(x, y),
    ensures
        b.shifted(dx, dy).alive(x, y) == b.alive((x - dx) % (b.w as int), (y - dy) % (b.h as int)),
{
    lemma_index_in_range(b.w as int, b.h as int, x, y);
    lemma_index_decode(b.w as int, x, y);
}

/// The rule is the same everywhere on the wrap-around board: moving a board
/// and then stepping it gives what stepping and then moving gives.
pub proof fn lemma_step_commutes_with_shift(b: Board, dx: int, dy: int)
    requires
        b.wf(),
    ensures
        b.shifted(dx, dy).step() == b.step().shifted(dx, dy),
{
    let s = b.shifted(dx, dy);
    let w = b.w as int;
    let h = b.h as int;
    assert forall|i: int| 0 <= i < b.cells.len() implies s.step().cells[i] == b.step().shifted(dx, dy).cells[i] by {
        let x = i % w;
        let y = i / w;
        vstd::arithmetic::div_mod::lemma_fundamental_div_mod(i, w);
        vstd::arithmetic::div_mod::lemma_mod_bound(i, w);
        vstd::arithmetic::div_mod::lemma_div_pos_is_pos(i, w);
        assert(y < h) by (nonlinear_arith)
            requires
                i == w * y + x,
                0 <= x,
                i < w * h,
                0 < w,
        ;
        lemma_wrap_shift(x, dx, w);
        lemma_wrap_shift(y, dy, h);
        let xs = (x - dx) % w;
        let ys = (y - dy) % h;
        // the moved board around (x, y) is the unmoved one around (xs, ys)
        lemma_shifted_alive(b, dx, dy, x, y);
        lemma_shifted_alive(b, dx, dy, wrap_dec(x, w), wrap_dec(y, h));
        lemma_shifted_alive(b, dx, dy, x, wrap_dec(y, h));
        lemma_shifted_alive(b, dx, dy, wrap_inc(x, w), wrap_dec(y, h));
        lemma_shifted_alive(b, dx, dy, wrap_dec(x, w), y);
        lemma_shifted_alive(b, dx, dy, wrap_inc(x, w), y);
        lemma_shifted_alive(b, dx, dy, wrap_dec(x, w), wrap_inc(y, h));
        lemma_shifted_alive(b, dx, dy, x, wrap_inc(y, h));
        lemma_shifted_alive(b, dx, dy, wrap_inc(x, w), wrap_inc(y, h));
        assert(s.neighbours(x, y) == b.neighbours(xs, ys));
        assert(s.step().cells[i] == next_state(b.alive(xs, ys), b.neighbours(xs, ys)));
        // the stepped board at (xs, ys)
        let j = ys * w + xs;
        lemma_index_in_range(w, h, xs, ys);
        lemma_index_decode(w, xs, ys);
        assert(b.step().alive(xs, ys) == b.step().cells[j]);
        assert(b.step().shifted(dx, dy).cells[i] == b.step().alive(xs, ys));
    }
    assert(s.step().cells =~= b.step().shifted(dx, dy).cells);
}

/// The number of live cells among the eight neighbours of `(x, y)` on the
/// torus: the cells one column and one row away in every direction, each
/// coordinate taken modulo the board's side.
pub open spec fn live_around(b: Board, x: int, y: int) -> int {
    let w = b.w as int;
    let h = b.h as int;
    let c = |dx: int, dy: int| if b.alive((x + dx + w) % w, (y + dy + h) % h) { 1int } else { 0int };
    c(-1, -1) + c(0, -1) + c(1, -1) + c(-1, 0) + c(1, 0) + c(-1, 1) + c(0, 1) + c(1, 1)
}

/// Conway's rule B3/S23 on the wrap-around board: after a generation, a cell
/// is live exactly when it had three live neighbours, or was live with two.
/// In particular a live cell with fewer than two or more than three live
/// neighbours dies, and a dead cell with other than three stays dead.
pub proof fn lemma_conway_rule(b: Board, x: int, y: int)
    requires
        b.wf(),
        b.in_bounds(x, y),
    ensures
        b.step().in_bounds(x, y),
        0 <= live_around(b, x, y) <= 8,
        b.step().alive(x, y) <==> (live_around(b, x, y) == 3 || (b.alive(x, y) && live_around(b, x, y) == 2)),
        b.alive(x, y) && (live_around(b, x, y) < 2 || live_around(b, x, y) > 3) ==> !b.step().alive(x, y),
        !b.alive(x, y) && live_around(b, x, y) != 3 ==> !b.step().alive(x, y),
{
    let w = b.w as int;
    let h = b.h as int;
    let i = y * w + x;
    lemma_index_in_range(w, h, x, y);
    lemma_index_decode(w, x, y);
    assert(b.step().alive(x, y) == b.step().cells[i]);
    // Each wrapped coordinate is the neighbour's coordinate modulo the side.
    vstd::arithmetic::div_mod::lemma_small_mod(x as nat, w as nat);
    vstd::arithmetic::div_mod::lemma_small_mod(y as nat, h as nat);
    vstd::arithmetic::div_mod::lemma_mod_add_multiples_vanish(x, w);
    vstd::arithmetic::div_mod::lemma_mod_add_multiples_vanish(y, h);
    if x + 1 < w {
        vstd::arithmetic::div_mod::lemma_small_mod((x + 1) as nat, w as nat);
        vstd::arithmetic::div_mod::lemma_mod_add_multiples_vanish(x + 1, w);
    } else {
        vstd::arithmetic::div_mod::lemma_mod_self_0(w);
        vstd::arithmetic::div_mod::lemma_mod_add_multiples_vanish(w, w);
        assert((x + 1 + w) % w == 0);
    }
    if y + 1 < h {
        vstd::arithmetic::div_mod::lemma_small_mod((y + 1) as nat, h as nat);
        vstd::arithmetic::div_mod::lemma_mod_add_multiples_vanish(y + 1, h);
    } else {
        vstd::arithmetic::div_mod::lemma_mod_self_0(h);
        vstd::arithmetic::div_mod::lemma_mod_add_multiples_vanish(h, h);
        assert((y + 1 + h) % h == 0);
    }
    if x == 0 {
        vstd::arithmetic::div_mod::lemma_small_mod((w - 1) as nat, w as nat);
    } else {
        vstd::arithmetic::div_mod::lemma_small_mod((x - 1) as nat, w as nat);
        vstd::arithmetic::div_mod::lemma_mod_add_multiples_vanish(x - 1, w);
    }
    if y == 0 {
        vstd::arithmetic::div_mod::lemma_small_mod((h - 1) as nat, h as nat);
    } else {
        vstd::arithmetic::div_mod::lemma_small_mod((y - 1) as nat, h as nat);
        vstd::arithmetic::div_mod::lemma_mod_add_multiples_vanish(y - 1, h);
    }
    assert((x + -1 + w) % w == wrap_dec(x, w));
    assert((x + 0 + w) % w == x);
    assert((x + 1 + w) % w == wrap_inc(x, w));
    assert((y + -1 + h) % h == wrap_dec(y, h));
    assert((y + 0 + h) % h == y);
    assert((y + 1 + h) % h == wrap_inc(y, h));
    assert(live_around(b, x, y) == b.neighbours(x, y));
}

/// Clearing a board leaves a dead board of the same size.
pub proof fn lemma_cleared_is_dead(b: Board)
    ensures
        b.cleared().w == b.w,
        b.cleared().h == b.h,
        forall|x: int, y: int| !#[trigger] b.cleared().alive(x, y),
{
    lemma_dead_has_no_live_cell(b.w, b.h);
}

/// A grid of cells for the Game of Life. `front` holds the current
/// generation, one byte per cell (1 live, 0 dead), `back` the buffer the
/// next generation is computed into.
pub struct Grid {
    w: usize,
    h: usize,
    front: Vec<u8>,
    back: Vec<u8>,
}

impl View for Grid {
    type V = Board;

    closed spec fn view(&self) -> Board {
        Board {
            w: self.w as nat,
            h: self.h as nat,
            cells: self.front@.map_values(|b: u8| b != 0),
        }
    }
}

impl Grid {
    /// Both buffers hold one byte per cell, and every current cell is 0 or 1.
    pub closed spec fn wf(&self) -> bool {
        &&& self.front.len() == self.w * self.h
        &&& self.back.len() == self.w * self.h
        &&& forall|i: int| 0 <= i < self.front.len() ==> #[trigger] self.front@[i] <= 1
    }

    /// A well-formed grid views as a well-formed board of its own size.
    pub proof fn lemma_view_wf(&self)
        requires
            self.wf(),
        ensures
            self@.wf(),
            self@.w * self@.h <= usize::MAX,
    {
    }

    /// The number of columns.
    pub fn width(&self) -> (w: usize)
        ensures
            w == self@.w,
    {
        self.w
    }

    /// The number of rows.
    pub fn height(&self) -> (h: usize)
        ensures
            h == self@.h,
    {
        self.h
    }

    /// A `w` by `h` grid with every cell dead.
    pub fn new(w: usize, h: usize) -> (g: Self)
        requires
            w * h <= usize::MAX,
        ensures
            g.wf(),
            g@ == Board::dead(w as nat, h as nat),
    {
        let n = w * h;
        let g = Grid { w, h, front: vec![0u8; n], back: vec![0u8; n] };
        assert(g@.cells =~= Board::dead(w as nat, h as nat).cells);
        g
    }

    /// The index of cell `(x, y)` in the buffers.
    fn idx(&self, x: usize, y: usize) -> (i: usize)
        requires
            self.wf(),
            x < self.w,
            y < self.h,
        ensures
            i == y * self.w + x,
            i < self.front.len(),
    {
        proof {
            lemma_index_in_range(self.w as int, self.h as int, x as int, y as int);
        }
        y * self.w + x
    }

    /// Whether cell `(x, y)` is live; a cell off the grid reads as dead.
    pub fn get(&self, x: usize, y: usize) -> (alive: bool)
        requires
            self.wf(),
        ensures
            alive == self@.alive(x as int, y as int),
    {
        if x >= self.w || y >= self.h {
            return false;
        }
        self.front[self.idx(x, y)] != 0
    }

    /// Makes cell `(x, y)` live or dead; off the grid nothing changes.
    pub fn set(&mut self, x: usize, y: usize, alive: bool)
        requires
            old(self).wf(),
        ensures
            final(self).wf(),
            final(self)@ == old(self)@.set(x as int, y as int, alive),
    {
        if x >= self.w || y >= self.h {
            return;
        }
        let i = self.idx(x, y);
        let v: u8 = if alive { 1 } else { 0 };
        self.front.set(i, v);
        assert(self@.cells =~= old(self)@.cells.update(i as int, alive));
    }

    /// Flips cell `(x, y)` between live and dead; off the grid nothing
    /// changes.
    pub fn toggle(&mut self, x: usize, y: usize)
        requires
            old(self).wf(),
        ensures
            final(self).wf(),
            final(self)@ == old(self)@.flip(x as int, y as int),
    {
        if x >= self.w || y >= self.h {
            return;
        }
        let i = self.idx(x, y);
        let b = self.front[i];
        let v: u8 = b ^ 1;
        assert(b <= 1 ==> (b ^ 1u8) <= 1 && ((b ^ 1u8) != 0) == (b == 0)) by (bit_vector);
        self.front.set(i, v);
        assert(self@.cells =~= old(self)@.cells.update(i as int, !old(self)@.cells[i as int]));
    }

    /// Kills every cell.
    pub fn clear(&mut self)
        requires
            old(self).wf(),
        ensures
            final(self).wf(),
            final(self)@ == old(self)@.cleared(),
    {
        let n = self.front.len();
        let mut i: usize = 0;
        while i < n
            invariant
                n == self.front.len(),
                self.front.len() == self.w * self.h,
                self.back.len() == self.w * self.h,
                self.w == old(self).w,
                self.h == old(self).h,
                i <= n,
                forall|j: int| 0 <= j < i ==> self.front@[j] == 0,
            decreases n - i,
        {
            self.front.set(i, 0);
            i = i + 1;
        }
        let m = self.back.len();
        let mut k: usize = 0;
        while k < m
            invariant
                m == self.back.len(),
                n == self.front.len(),
                self.front.len() == self.w * self.h,
                self.back.len() == self.w * self.h,
                self.w == old(self).w,
                self.h == old(self).h,
                k <= m,
                forall|j: int| 0 <= j < n ==> self.front@[j] == 0,
            decreases m - k,
        {
            self.back.set(k, 0);
            k = k + 1;
        }
        assert(self@.cells =~= old(self)@.cleared().cells);
    }

    /// Gives the grid new dimensions, every cell dead.
    pub fn resize(&mut self, w: usize, h: usize)
        requires
            w * h <= usize::MAX,
        ensures
            final(self).wf(),
            final(self)@ == Board::dead(w as nat, h as nat),
    {
        self.w = w;
        self.h = h;
        let n = w * h;
        self.front = vec![0u8; n];
        self.back = vec![0u8; n];
        assert(self@.cells =~= Board::dead(w as nat, h as nat).cells);
    }

    /// The byte of cell `(x, y)`, which counts 1 when live and 0 when dead.
    fn cell_byte(&self, x: usize, y: usize) -> (b: u8)
        requires
            self.wf(),
            x < self.w,
            y < self.h,
        ensures
            b as int == count(self@.alive(x as int, y as int)),
    {
        let i = self.idx(x, y);
        self.front[i]
    }

    /// Advances the grid by one generation of Conway's Game of Life, the
    /// edges wrapping around.
    pub fn tick(&mut self)
        requires
            old(self).wf(),
        ensures
            final(self).wf(),
            final(self)@ == old(self)@.step(),
    {
        if self.w == 0 || self.h == 0 {
            assert(self@.step().cells =~= self@.cells);
            return;
        }
        let w = self.w;
        let h = self.h;
        let ghost before = self@;
        let ghost after = before.step();
        let mut y: usize = 0;
        while y < h
            invariant
                self.wf(),
                self@ == before,
                w == self.w,
                h == self.h,
                w > 0,
                h > 0,
                after == before.step(),
                y <= h,
                forall|j: int| 0 <= j < y * w ==> #[trigger] self.back@[j] as int == count(after.cells[j]),
            decreases h - y,
        {
            let yn = if y == 0 { h - 1 } else { y - 1 };
            let ys = if y + 1 == h { 0 } else { y + 1 };
            let mut x: usize = 0;
            while x < w
                invariant
                    self.wf(),
                    self@ == before,
                    w == self.w,
                    h == self.h,
                    w > 0,
                    h > 0,
                    after == before.step(),
                    y < h,
                    yn as int == wrap_dec(y as int, h as int),
                    ys as int == wrap_inc(y as int, h as int),
                    x <= w,
                    forall|j: int| 0 <= j < y * w + x ==> #[trigger] self.back@[j] as int == count(after.cells[j]),
                decreases w - x,
            {
                let xw = if x == 0 { w - 1 } else { x - 1 };
                let xe = if x + 1 == w { 0 } else { x + 1 };
                let n = self.cell_byte(xw, yn) + self.cell_byte(x, yn) + self.cell_byte(xe, yn)
                    + self.cell_byte(xw, y) + self.cell_byte(xe, y)
                    + self.cell_byte(xw, ys) + self.cell_byte(x, ys) + self.cell_byte(xe, ys);
                let i = self.idx(x, y);
                let alive = self.front[i] != 0;
                let v: u8 = if (alive && n == 2) || n == 3 { 1 } else { 0 };
                proof {
                    lemma_index_decode(w as int, x as int, y as int);
                    assert(n as int == before.neighbours(x as int, y as int));
                    assert(alive == before.alive(x as int, y as int));
                    assert(v as int == count(after.cells[i as int]));
                }
                self.back.set(i, v);
                x = x + 1;
            }
            assert((y + 1) * w == y * w + w) by (nonlinear_arith);
            y = y + 1;
        }
        assert(self.back.len() == h * w) by (nonlinear_arith)
            requires
                self.back.len() == self.w * self.h,
                w == self.w,
                h == self.h,
        ;
        proof {
            assert(forall|j: int| 0 <= j < self.back.len() ==> #[trigger] self.back@[j] <= 1);
        }
        std::mem::swap(&mut self.front, &mut self.back);
        assert(self@.cells =~= after.cells);
    }
}

} // verus!
