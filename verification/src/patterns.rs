use vstd::prelude::*;
use crate::grid::{Board, Grid};
use crate::random::Draws;

verus! {

/// The characters that mark a live cell in pattern art.
pub open spec fn is_live_char(c: char) -> bool {
    c == 'O' || c == '#' || c == '*'
}

/// The row of the character that follows `s`: the number of line breaks in
/// `s`.
pub open spec fn row_after(s: Seq<char>) -> int
    decreases s.len(),
{
    if s.len() == 0 {
        0
    } else if s.last() == '\n' {
        row_after(s.drop_last()) + 1
    } else {
        row_after(s.drop_last())
    }
}

/// The column of the character that follows `s`: the number of characters
/// since the last line break in `s`.
pub open spec fn col_after(s: Seq<char>) -> int
    decreases s.len(),
{
    if s.len() == 0 {
        0
    } else if s.last() == '\n' {
        0
    } else {
        col_after(s.drop_last()) + 1
    }
}

/// The live cells of pattern art, as `(column, row)` pairs in reading order:
/// rows are separated by line breaks, and a cell is live where the art holds
/// `O`, `#` or `*`.
pub open spec fn art_cells(s: Seq<char>) -> Seq<(int, int)>
    decreases s.len(),
{
    if s.len() == 0 {
        seq![]
    } else {
        let before = art_cells(s.drop_last());
        if is_live_char(s.last()) {
            before.push((col_after(s.drop_last()), row_after(s.drop_last())))
        } else {
            before
        }
    }
}

/// The largest column among `cells`, or 0 when there is none.
pub open spec fn max_col(cells: Seq<(int, int)>) -> int
    decreases cells.len(),
{
    if cells.len() == 0 {
        0
    } else {
        let m = max_col(cells.drop_last());
        if cells.last().0 > m { cells.last().0 } else { m }
    }
}

/// The largest row among `cells`, or 0 when there is none.
pub open spec fn max_row(cells: Seq<(int, int)>) -> int
    decreases cells.len(),
{
    if cells.len() == 0 {
        0
    } else {
        let m = max_row(cells.drop_last());
        if cells.last().1 > m { cells.last().1 } else { m }
    }
}

/// A named pattern: its live cells relative to its top-left corner, the
/// width and height of its bounding box, and how often it is picked
/// relative to the others.
pub struct Pattern {
    pub name: &'static str,
    pub cells: Vec<(i16, i16)>,
    pub w: i16,
    pub h: i16,
    pub weight: u32,
}

/// A cell offset as a pair of integers.
pub open spec fn cell_view(c: (i16, i16)) -> (int, int) {
    (c.0 as int, c.1 as int)
}

impl Pattern {
    /// The live cells as integer pairs.
    pub open spec fn cell_seq(&self) -> Seq<(int, int)> {
        self.cells@.map_values(|c: (i16, i16)| cell_view(c))
    }

    /// The box is at least one cell on each side, and every cell lies in it.
    pub open spec fn wf(&self) -> bool {
        &&& 1 <= self.w
        &&& 1 <= self.h
        &&& forall|k: int| 0 <= k < self.cells.len() ==> 0 <= (#[trigger] self.cells@[k]).0 < self.w && 0
            <= self.cells@[k].1 < self.h
    }

    /// This is the pattern that `art` describes: its live cells in reading
    /// order, and a bounding box one wider and taller than the largest
    /// column and row that hold a live cell.
    pub open spec fn describes(&self, art: Seq<char>) -> bool {
        &&& self.cell_seq() == art_cells(art)
        &&& self.w == max_col(art_cells(art)) + 1
        &&& self.h == max_row(art_cells(art)) + 1
    }
}

/// Every cell lies within the bounding box that `max_col` and `max_row`
/// give, and the box is no larger than a bound on every coordinate.
pub proof fn lemma_box_bounds(cells: Seq<(int, int)>, bound: int)
    requires
        0 <= bound,
        forall|k: int| 0 <= k < cells.len() ==> 0 <= #[trigger] cells[k].0 <= bound && 0 <= cells[k].1 <= bound,
    ensures
        0 <= max_col(cells) <= bound,
        0 <= max_row(cells) <= bound,
        forall|k: int| 0 <= k < cells.len() ==> #[trigger] cells[k].0 <= max_col(cells) && cells[k].1 <= max_row(cells),
    decreases cells.len(),
{
    if cells.len() > 0 {
        let rest = cells.drop_last();
        lemma_box_bounds(rest, bound);
        assert forall|k: int| 0 <= k < cells.len() implies #[trigger] cells[k].0 <= max_col(cells) && cells[k].1 <= max_row(cells) by {
            if k < rest.len() {
                assert(cells[k] == rest[k]);
            }
        }
    }
}

/// The cells of art number no more than its characters, and every coordinate
/// is below its length.
pub proof fn lemma_art_cells_bounds(s: Seq<char>)
    ensures
        art_cells(s).len() <= s.len(),
        forall|k: int| 0 <= k < art_cells(s).len() ==> 0 <= #[trigger] art_cells(s)[k].0 < s.len() && 0 <= art_cells(s)[k].1 < s.len(),
    decreases s.len(),
{
    if s.len() > 0 {
        let pre = s.drop_last();
        lemma_art_cells_bounds(pre);
        lemma_pos_bounds(pre);
        let c = art_cells(s);
        assert forall|k: int| 0 <= k < c.len() implies 0 <= #[trigger] c[k].0 < s.len() && 0 <= c[k].1 < s.len() by {
            if k < art_cells(pre).len() {
                assert(c[k] == art_cells(pre)[k]);
            }
        }
    }
}

/// Positions in art are no larger than the art is long.
proof fn lemma_pos_bounds(s: Seq<char>)
    ensures
        0 <= col_after(s) <= s.len(),
        0 <= row_after(s) <= s.len(),
    decreases s.len(),
{
    if s.len() > 0 {
        lemma_pos_bounds(s.drop_last());
    }
}

/// Every live mark of `s` sits at a column and a row below 32767, so that
/// both, and the box one larger, fit in 16 bits.
pub open spec fn art_fits(s: Seq<char>) -> bool {
    forall|i: int|
        0 <= i < s.len() && is_live_char(s[i]) ==> col_after(#[trigger] s.take(i)) < 32767 && row_after(
            s.take(i),
        ) < 32767
}

/// Art no longer than 32000 characters fits.
pub proof fn lemma_short_art_fits(s: Seq<char>)
    requires
        s.len() <= 32000,
    ensures
        art_fits(s),
{
    assert forall|i: int| 0 <= i < s.len() && is_live_char(s[i]) implies col_after(#[trigger] s.take(i))
        < 32767 && row_after(s.take(i)) < 32767 by {
        lemma_pos_bounds(s.take(i));
    }
}

/// A pattern read from art of at most 32000 characters has at most 32000
/// cells and a box at most 32001 cells on a side.
pub proof fn lemma_small_art_small_pattern(p: &Pattern, art: Seq<char>)
    requires
        p.describes(art),
        art.len() <= 32000,
    ensures
        p.cells.len() <= 32000,
        p.w <= 32001,
        p.h <= 32001,
{
    lemma_art_cells_bounds(art);
    lemma_box_bounds(art_cells(art), art.len() as int);
    assert(p.cell_seq().len() == p.cells.len());
}

/// Reads pattern art into a pattern with the given name and weight.
pub fn parse(name: &'static str, art: &str, weight: u32) -> (p: Pattern)
    requires
        art_fits(art@),
        art@.len() <= usize::MAX,
    ensures
        p.name == name,
        p.weight == weight,
        p.describes(art@),
        p.wf(),
{
    let mut cells: Vec<(i16, i16)> = Vec::new();
    let mut max_x: i16 = 0;
    let mut max_y: i16 = 0;
    let mut x: usize = 0;
    let mut y: usize = 0;
    let ghost s = art@;
    for ch in it: art.chars()
        invariant
            s == art@,
            art_fits(s),
            s.len() <= usize::MAX,
            it.seq() == s,
            x == col_after(s.take(it.index() as int)),
            y == row_after(s.take(it.index() as int)),
            cells@.map_values(|c: (i16, i16)| cell_view(c)) == art_cells(s.take(it.index() as int)),
            max_x == max_col(art_cells(s.take(it.index() as int))),
            max_y == max_row(art_cells(s.take(it.index() as int))),
            0 <= max_x < 32767,
            0 <= max_y < 32767,
            forall|k: int| 0 <= k < cells.len() ==> 0 <= (#[trigger] cells@[k]).0 <= max_x && 0 <= cells@[k].1 <= max_y,
    {
        let ghost pre = s.take(it.index() as int);
        proof {
            lemma_pos_bounds(pre);
            assert(s.take(it.index() + 1).drop_last() =~= pre);
            assert(s.take(it.index() + 1).last() == ch);
            assert(s[it.index() as int] == ch);
        }
        if ch == '\n' {
            y = y + 1;
            x = 0;
        } else {
            if ch == 'O' || ch == '#' || ch == '*' {
                let cx = x as i16;
                let cy = y as i16;
                cells.push((cx, cy));
                if cx > max_x {
                    max_x = cx;
                }
                if cy > max_y {
                    max_y = cy;
                }
                assert(cells@.map_values(|c: (i16, i16)| cell_view(c)) =~= art_cells(
                    s.take(it.index() + 1),
                ));
                assert(art_cells(s.take(it.index() + 1)).drop_last() =~= art_cells(pre));
            }
            x = x + 1;
        }
    }
    assert(s.take(s.len() as int) =~= s);
    Pattern { name, cells, w: max_x + 1, h: max_y + 1, weight }
}

/// Art with a live mark somewhere describes at least one live cell.
pub proof fn lemma_live_char_gives_cell(s: Seq<char>, k: int)
    requires
        0 <= k < s.len(),
        is_live_char(s[k]),
    ensures
        art_cells(s).len() > 0,
    decreases s.len(),
{
    if k < s.len() - 1 {
        assert(s.drop_last()[k] == s[k]);
        lemma_live_char_gives_cell(s.drop_last(), k);
    }
}

/// The patterns the catalog offers: name, art and weight, in order.
pub open spec fn catalog_spec() -> Seq<(Seq<char>, Seq<char>, u32)> {
    seq![
        ("block"@, "OO\nOO"@, 1u32),
        ("beehive"@, ".OO.\nO..O\n.OO."@, 1u32),
        ("loaf"@, ".OO.\nO..O\n.O.O\n..O."@, 1u32),
        ("boat"@, "OO.\nO.O\n.O."@, 1u32),
        ("tub"@, ".O.\nO.O\n.O."@, 1u32),
        ("blinker"@, "OOO"@, 2u32),
        ("toad"@, ".OOO\nOOO."@, 2u32),
        ("beacon"@, "OO..\nOO..\n..OO\n..OO"@, 2u32),
        ("pulsar"@, "..OOO...OOO..\n.............\nO....O.O....O\nO....O.O....O\nO....O.O....O\n..OOO...OOO..\n.............\n..OOO...OOO..\nO....O.O....O\nO....O.O....O\nO....O.O....O\n.............\n..OOO...OOO.."@, 2u32),
        ("glider"@, ".O.\n..O\nOOO"@, 5u32),
        ("lwss"@, ".O..O\nO....\nO...O\nOOOO."@, 4u32),
        ("mwss"@, "...O..\n.O...O\nO.....\nO....O\nOOOOO."@, 3u32),
        ("hwss"@, "...OO..\n.O....O\nO......\nO.....O\nOOOOOO."@, 3u32),
        ("gosper_glider_gun"@, "........................O...........\n......................O.O...........\n............OO......OO............OO\n...........O...O....OO............OO\nOO........O.....O...OO..............\nOO........O...O.OO....O.O...........\n..........O.....O.......O...........\n...........O...O....................\n............OO......................"@, 2u32),
    ]
}

/// The sum of the first `n` weights of `cat`.
pub open spec fn weight_prefix(cat: Seq<Pattern>, n: int) -> int
    decreases n,
{
    if n <= 0 {
        0
    } else {
        weight_prefix(cat, n - 1) + cat[n - 1].weight
    }
}

/// Every pattern of `cat` is well formed, has between one and 32000 live
/// cells, a box at most 32001 cells on a side, and a positive weight.
pub open spec fn catalog_wf(cat: Seq<Pattern>) -> bool {
    forall|i: int|
        0 <= i < cat.len() ==> {
            &&& (#[trigger] cat[i]).wf()
            &&& 0 < cat[i].cells.len() <= 32000
            &&& cat[i].w <= 32001
            &&& cat[i].h <= 32001
            &&& cat[i].weight >= 1
        }
}

/// The catalog of patterns that scattering picks from: still lifes,
/// oscillators, spaceships and a gun, each with the weight of its kind.
pub fn catalog() -> (cat: Vec<Pattern>)
    ensures
        cat.len() == catalog_spec().len(),
        forall|i: int| 0 <= i < cat.len() ==> {
            &&& (#[trigger] cat@[i]).name@ == catalog_spec()[i].0
            &&& cat@[i].describes(catalog_spec()[i].1)
            &&& cat@[i].weight == catalog_spec()[i].2
        },
        catalog_wf(cat@),
        weight_prefix(cat@, cat.len() as int) == 30,
{
    let mut cat: Vec<Pattern> = Vec::new();
    // still lifes, rare, mostly visual filler
    let art = "OO\nOO";
    proof {
        reveal_strlit("OO\nOO");
        lemma_live_char_gives_cell(art@, 0);
        lemma_short_art_fits(art@);
    }
    let p = parse("block", art, 1);
    proof {
        lemma_small_art_small_pattern(&p, art@);
    }
    cat.push(p);
    let art = ".OO.\nO..O\n.OO.";
    proof {
        reveal_strlit(".OO.\nO..O\n.OO.");
        lemma_live_char_gives_cell(art@, 1);
        lemma_short_art_fits(art@);
    }
    let p = parse("beehive", art, 1);
    proof {
        lemma_small_art_small_pattern(&p, art@);
    }
    cat.push(p);
    let art = ".OO.\nO..O\n.O.O\n..O.";
    proof {
        reveal_strlit(".OO.\nO..O\n.O.O\n..O.");
        lemma_live_char_gives_cell(art@, 1);
        lemma_short_art_fits(art@);
    }
    let p = parse("loaf", art, 1);
    proof {
        lemma_small_art_small_pattern(&p, art@);
    }
    cat.push(p);
    let art = "OO.\nO.O\n.O.";
    proof {
        reveal_strlit("OO.\nO.O\n.O.");
        lemma_live_char_gives_cell(art@, 0);
        lemma_short_art_fits(art@);
    }
    let p = parse("boat", art, 1);
    proof {
        lemma_small_art_small_pattern(&p, art@);
    }
    cat.push(p);
    let art = ".O.\nO.O\n.O.";
    proof {
        reveal_strlit(".O.\nO.O\n.O.");
        lemma_live_char_gives_cell(art@, 1);
        lemma_short_art_fits(art@);
    }
    let p = parse("tub", art, 1);
    proof {
        lemma_small_art_small_pattern(&p, art@);
    }
    cat.push(p);
    // oscillators
    let art = "OOO";
    proof {
        reveal_strlit("OOO");
        lemma_live_char_gives_cell(art@, 0);
        lemma_short_art_fits(art@);
    }
    let p = parse("blinker", art, 2);
    proof {
        lemma_small_art_small_pattern(&p, art@);
    }
    cat.push(p);
    let art = ".OOO\nOOO.";
    proof {
        reveal_strlit(".OOO\nOOO.");
        lemma_live_char_gives_cell(art@, 1);
        lemma_short_art_fits(art@);
    }
    let p = parse("toad", art, 2);
    proof {
        lemma_small_art_small_pattern(&p, art@);
    }
    cat.push(p);
    let art = "OO..\nOO..\n..OO\n..OO";
    proof {
        reveal_strlit("OO..\nOO..\n..OO\n..OO");
        lemma_live_char_gives_cell(art@, 0);
        lemma_short_art_fits(art@);
    }
    let p = parse("beacon", art, 2);
    proof {
        lemma_small_art_small_pattern(&p, art@);
    }
    cat.push(p);
    let art = "..OOO...OOO..\n.............\nO....O.O....O\nO....O.O....O\nO....O.O....O\n..OOO...OOO..\n.............\n..OOO...OOO..\nO....O.O....O\nO....O.O....O\nO....O.O....O\n.............\n..OOO...OOO..";
    proof {
        reveal_strlit("..OOO...OOO..\n.............\nO....O.O....O\nO....O.O....O\nO....O.O....O\n..OOO...OOO..\n.............\n..OOO...OOO..\nO....O.O....O\nO....O.O....O\nO....O.O....O\n.............\n..OOO...OOO..");
        lemma_live_char_gives_cell(art@, 2);
        lemma_short_art_fits(art@);
    }
    let p = parse("pulsar", art, 2);
    proof {
        lemma_small_art_small_pattern(&p, art@);
    }
    cat.push(p);
    // spaceships, the lifeblood of an interesting canvas
    let art = ".O.\n..O\nOOO";
    proof {
        reveal_strlit(".O.\n..O\nOOO");
        lemma_live_char_gives_cell(art@, 1);
        lemma_short_art_fits(art@);
    }
    let p = parse("glider", art, 5);
    proof {
        lemma_small_art_small_pattern(&p, art@);
    }
    cat.push(p);
    let art = ".O..O\nO....\nO...O\nOOOO.";
    proof {
        reveal_strlit(".O..O\nO....\nO...O\nOOOO.");
        lemma_live_char_gives_cell(art@, 1);
        lemma_short_art_fits(art@);
    }
    let p = parse("lwss", art, 4);
    proof {
        lemma_small_art_small_pattern(&p, art@);
    }
    cat.push(p);
    let art = "...O..\n.O...O\nO.....\nO....O\nOOOOO.";
    proof {
        reveal_strlit("...O..\n.O...O\nO.....\nO....O\nOOOOO.");
        lemma_live_char_gives_cell(art@, 3);
        lemma_short_art_fits(art@);
    }
    let p = parse("mwss", art, 3);
    proof {
        lemma_small_art_small_pattern(&p, art@);
    }
    cat.push(p);
    let art = "...OO..\n.O....O\nO......\nO.....O\nOOOOOO.";
    proof {
        reveal_strlit("...OO..\n.O....O\nO......\nO.....O\nOOOOOO.");
        lemma_live_char_gives_cell(art@, 3);
        lemma_short_art_fits(art@);
    }
    let p = parse("hwss", art, 3);
    proof {
        lemma_small_art_small_pattern(&p, art@);
    }
    cat.push(p);
    // gun, rare but spectacular
    let art = "........................O...........\n......................O.O...........\n............OO......OO............OO\n...........O...O....OO............OO\nOO........O.....O...OO..............\nOO........O...O.OO....O.O...........\n..........O.....O.......O...........\n...........O...O....................\n............OO......................";
    proof {
        reveal_strlit("........................O...........\n......................O.O...........\n............OO......OO............OO\n...........O...O....OO............OO\nOO........O.....O...OO..............\nOO........O...O.OO....O.O...........\n..........O.....O.......O...........\n...........O...O....................\n............OO......................");
        lemma_live_char_gives_cell(art@, 24);
        lemma_short_art_fits(art@);
    }
    let p = parse("gosper_glider_gun", art, 2);
    proof {
        lemma_small_art_small_pattern(&p, art@);
    }
    cat.push(p);
    assert(weight_prefix(cat@, 14) == 30) by {
        reveal_with_fuel(weight_prefix, 15);
    }
    cat
}

/// Weights are never negative, so the running sums never fall.
pub proof fn lemma_weight_prefix_monotone(cat: Seq<Pattern>, i: int, j: int)
    requires
        0 <= i <= j <= cat.len(),
    ensures
        weight_prefix(cat, i) <= weight_prefix(cat, j),
    decreases j - i,
{
    if i < j {
        lemma_weight_prefix_monotone(cat, i, j - 1);
    }
}

/// Picks a pattern by a weighted roll: pattern `i` takes the rolls from the
/// sum of the weights before it up to, not including, that sum plus its own
/// weight. A roll past the total weight falls back to the first pattern.
pub fn pick_pattern(cat: &Vec<Pattern>, roll: u32) -> (i: usize)
    requires
        cat.len() > 0,
    ensures
        i < cat.len(),
        roll < weight_prefix(cat@, cat.len() as int) ==> weight_prefix(cat@, i as int) <= roll
            < weight_prefix(cat@, i + 1),
        roll >= weight_prefix(cat@, cat.len() as int) ==> i == 0,
{
    let mut r = roll;
    let mut k: usize = 0;
    while k < cat.len()
        invariant
            k <= cat.len(),
            r + weight_prefix(cat@, k as int) == roll,
        decreases cat.len() - k,
    {
        if r < cat[k].weight {
            proof {
                lemma_weight_prefix_monotone(cat@, k + 1, cat.len() as int);
            }
            return k;
        }
        r = r - cat[k].weight;
        k = k + 1;
    }
    0
}

/// The number of cells of `cells`, placed with their corner at `(ox, oy)`,
/// that are already live on `b`.
pub open spec fn overlap(b: Board, cells: Seq<(int, int)>, ox: int, oy: int) -> int
    decreases cells.len(),
{
    if cells.len() == 0 {
        0
    } else {
        overlap(b, cells.drop_last(), ox, oy) + if b.alive(ox + cells.last().0, oy + cells.last().1) {
            1int
        } else {
            0int
        }
    }
}

/// Whether `(x, y)` is one of `cells` placed with their corner at `(ox, oy)`.
pub open spec fn covers(cells: Seq<(int, int)>, ox: int, oy: int, x: int, y: int) -> bool {
    exists|k: int| 0 <= k < cells.len() && ox + (#[trigger] cells[k]).0 == x && oy + cells[k].1 == y
}

/// `after` is `before` with every cell of `cells`, placed at `(ox, oy)`,
/// made live; nothing else changes.
pub open spec fn stamped(before: Board, after: Board, cells: Seq<(int, int)>, ox: int, oy: int) -> bool {
    &&& after.w == before.w
    &&& after.h == before.h
    &&& forall|x: int, y: int|
        #[trigger] after.alive(x, y) == (before.alive(x, y) || (before.in_bounds(x, y) && covers(cells, ox, oy, x, y)))
}

/// Every cell that is live in `after` but not in `before` lies at least
/// four cells away from the right and the bottom edge.
pub open spec fn added_with_margin(before: Board, after: Board) -> bool {
    forall|x: int, y: int|
        #[trigger] after.alive(x, y) && !before.alive(x, y) ==> x + 4 < after.w && y + 4 < after.h
}

/// Every live cell of `before` is still live in `after`, and the size is the same.
pub open spec fn only_adds(before: Board, after: Board) -> bool {
    &&& after.w == before.w
    &&& after.h == before.h
    &&& forall|x: int, y: int| before.alive(x, y) ==> #[trigger] after.alive(x, y)
}

/// Placing `p` with its corner at `(ox, oy)` keeps every coordinate
/// non-negative and within 16 bits.
pub open spec fn placeable(p: &Pattern, ox: i16, oy: i16) -> bool {
    &&& 0 <= ox
    &&& 0 <= oy
    &&& ox + p.w <= i16::MAX
    &&& oy + p.h <= i16::MAX
}

/// Counts the cells of `p`, placed at `(ox, oy)`, that are live on `grid`.
pub fn count_overlap(grid: &Grid, p: &Pattern, ox: i16, oy: i16) -> (n: usize)
    requires
        grid.wf(),
        p.wf(),
        placeable(p, ox, oy),
    ensures
        n == overlap(grid@, p.cell_seq(), ox as int, oy as int),
        n <= p.cells.len(),
{
    let mut n: usize = 0;
    let mut k: usize = 0;
    while k < p.cells.len()
        invariant
            grid.wf(),
            p.wf(),
            placeable(p, ox, oy),
            k <= p.cells.len(),
            n == overlap(grid@, p.cell_seq().take(k as int), ox as int, oy as int),
            n <= k,
        decreases p.cells.len() - k,
    {
        let (dx, dy) = p.cells[k];
        let x = (ox + dx) as usize;
        let y = (oy + dy) as usize;
        proof {
            assert(p.cell_seq().take(k + 1).drop_last() =~= p.cell_seq().take(k as int));
            assert(p.cell_seq().take(k + 1).last() == cell_view(p.cells@[k as int]));
        }
        if grid.get(x, y) {
            n = n + 1;
        }
        k = k + 1;
    }
    assert(p.cell_seq().take(p.cells.len() as int) =~= p.cell_seq());
    n
}

/// Makes every cell of `p`, placed at `(ox, oy)`, live on `grid`.
pub fn stamp(grid: &mut Grid, p: &Pattern, ox: i16, oy: i16)
    requires
        old(grid).wf(),
        p.wf(),
        placeable(p, ox, oy),
    ensures
        final(grid).wf(),
        stamped(old(grid)@, final(grid)@, p.cell_seq(), ox as int, oy as int),
{
    let mut k: usize = 0;
    while k < p.cells.len()
        invariant
            grid.wf(),
            p.wf(),
            placeable(p, ox, oy),
            k <= p.cells.len(),
            stamped(old(grid)@, grid@, p.cell_seq().take(k as int), ox as int, oy as int),
        decreases p.cells.len() - k,
    {
        let (dx, dy) = p.cells[k];
        let x = (ox + dx) as usize;
        let y = (oy + dy) as usize;
        let ghost mid = grid@;
        proof {
            grid.lemma_view_wf();
        }
        grid.set(x, y, true);
        proof {
            let cs = p.cell_seq().take(k + 1);
            assert(cs[k as int] == cell_view(p.cells@[k as int]));
            assert forall|x2: int, y2: int| #[trigger] grid@.alive(x2, y2) == (old(grid)@.alive(x2, y2) || (
                old(grid)@.in_bounds(x2, y2) && covers(cs, ox as int, oy as int, x2, y2))) by {
                if x2 == x && y2 == y && mid.in_bounds(x2, y2) {
                    crate::grid::lemma_set_then_read(mid, x as int, y as int, true, x2, y2);
                    assert(covers(cs, ox as int, oy as int, x2, y2));
                } else {
                    if mid.in_bounds(x as int, y as int) {
                        crate::grid::lemma_set_then_read(mid, x as int, y as int, true, x2, y2);
                    }
                    if covers(cs, ox as int, oy as int, x2, y2) {
                        let j = choose|j: int| 0 <= j < cs.len() && ox + (#[trigger] cs[j]).0 == x2 && oy + cs[j].1 == y2;
                        if j < k {
                            assert(p.cell_seq().take(k as int)[j] == cs[j]);
                        }
                    }
                    if covers(p.cell_seq().take(k as int), ox as int, oy as int, x2, y2) {
                        let j = choose|j: int| 0 <= j < k && ox + (#[trigger] p.cell_seq().take(k as int)[j]).0 == x2 && oy + p.cell_seq().take(k as int)[j].1 == y2;
                        assert(cs[j] == p.cell_seq().take(k as int)[j]);
                    }
                }
            }
        }
        k = k + 1;
    }
    assert(p.cell_seq().take(p.cells.len() as int) =~= p.cell_seq());
}

/// Places `p` at `(ox, oy)` unless more than two fifths of its cells would
/// land on cells that are already live; says whether it placed it.
pub fn try_place(grid: &mut Grid, p: &Pattern, ox: i16, oy: i16) -> (placed: bool)
    requires
        old(grid).wf(),
        p.wf(),
        placeable(p, ox, oy),
        p.cells.len() * 5 <= usize::MAX,
    ensures
        final(grid).wf(),
        placed == (overlap(old(grid)@, p.cell_seq(), ox as int, oy as int) * 5 <= p.cells.len() * 2),
        placed ==> stamped(old(grid)@, final(grid)@, p.cell_seq(), ox as int, oy as int),
        !placed ==> final(grid)@ == old(grid)@,
{
    let overlap = count_overlap(grid, p, ox, oy);
    if overlap * 5 > p.cells.len() * 2 {
        return false;
    }
    stamp(grid, p, ox, oy);
    true
}

/// The live cells of catalog pattern `i`.
pub open spec fn cat_cells(i: int) -> Seq<(int, int)> {
    art_cells(catalog_spec()[i].1)
}

/// The width of catalog pattern `i`'s box.
pub open spec fn cat_w(i: int) -> int {
    max_col(cat_cells(i)) + 1
}

/// The height of catalog pattern `i`'s box.
pub open spec fn cat_h(i: int) -> int {
    max_row(cat_cells(i)) + 1
}

/// The sum of the weights of the first `n` catalog patterns.
pub open spec fn cat_prefix(n: int) -> int
    decreases n,
{
    if n <= 0 {
        0
    } else {
        cat_prefix(n - 1) + catalog_spec()[n - 1].2
    }
}

/// Catalog pattern `i`, with a margin of three cells beyond its box, leaves
/// room for at least one spot on a `w` by `h` board.
pub open spec fn cat_fits(i: int, w: int, h: int) -> bool {
    cat_w(i) + 3 < w && cat_h(i) + 3 < h
}

/// Every pattern of the catalog fits on a `w` by `h` board.
pub open spec fn catalog_fits(w: int, h: int) -> bool {
    forall|i: int| 0 <= i < catalog_spec().len() ==> #[trigger] cat_fits(i, w, h)
}

/// `n` read as a 16-bit signed number, as a cast to `i16` reads it: its
/// remainder by 65536, less 65536 when that is 32768 or more.
pub open spec fn i16_reading(n: int) -> int {
    let m = n % 65536;
    if m < 32768 { m } else { m - 65536 }
}

/// A 16-bit reading lies in the range of `i16` and is no larger than the
/// number read.
pub proof fn lemma_i16_reading_bounds(n: int)
    requires
        0 <= n,
    ensures
        -32768 <= i16_reading(n) <= 32767,
        i16_reading(n) <= n,
{
    vstd::arithmetic::div_mod::lemma_mod_bound(n, 65536);
    vstd::arithmetic::div_mod::lemma_mod_decreases(n as nat, 65536);
}

/// A `w` by `h` board that scattering handles: one narrower or lower than
/// 10 cells is left alone; on any other, every catalog pattern that fits
/// with its margin also fits within the sides read as 16-bit numbers, which
/// are what spots are drawn within.
pub open spec fn scatter_size_ok(w: int, h: int) -> bool {
    ||| w < 10
    ||| h < 10
    ||| forall|i: int|
        0 <= i < catalog_spec().len() && #[trigger] cat_fits(i, w, h) ==> cat_w(i) + 3 < i16_reading(w)
            && cat_h(i) + 3 < i16_reading(h)
}

/// One attempt of a scatter: the weighted roll and the end of the range it
/// was drawn from, the catalog pattern it picked, the spot drawn for the
/// pattern's corner when the pattern fits with the ends of the two ranges
/// its coordinates were drawn from, and whether the pattern was placed
/// there.
pub struct Attempt {
    pub roll: u32,
    pub roll_range: u32,
    pub pattern: int,
    pub spot: Option<(i16, i16)>,
    pub spot_range: Option<(u32, u32)>,
    pub placed: bool,
}

/// What a scatter did: its attempts in order, and the board before each
/// attempt and after the last.
pub struct ScatterLog {
    pub attempts: Seq<Attempt>,
    pub boards: Seq<Board>,
}

/// Attempt `a` took `before` to `after`: its roll is drawn below the total
/// weight 30 and picks the pattern whose weight interval holds it; a spot
/// is drawn exactly when the pattern fits, its column below the board's
/// width read as a 16-bit number less the pattern's width and a margin of
/// three, its row likewise below the height's reading less the pattern's
/// height and three; the
/// pattern is placed there exactly when at most two fifths of its cells
/// land on live cells, and otherwise nothing changes.
pub open spec fn attempt_done(a: Attempt, before: Board, after: Board) -> bool {
    &&& a.roll_range == 30
    &&& a.roll < a.roll_range
    &&& 0 <= a.pattern < catalog_spec().len()
    &&& cat_prefix(a.pattern) <= a.roll < cat_prefix(a.pattern + 1)
    &&& (a.spot is Some) == cat_fits(a.pattern, before.w as int, before.h as int)
    &&& (a.spot_range is Some) == (a.spot is Some)
    &&& after.wf()
    &&& match (a.spot, a.spot_range) {
        (Some((ox, oy)), Some((rx, ry))) => {
            &&& rx == i16_reading(before.w as int) - cat_w(a.pattern) - 3
            &&& ry == i16_reading(before.h as int) - cat_h(a.pattern) - 3
            &&& 0 <= ox < rx
            &&& 0 <= oy < ry
            &&& a.placed == (overlap(before, cat_cells(a.pattern), ox as int, oy as int) * 5 <= cat_cells(
                a.pattern,
            ).len() * 2)
            &&& a.placed ==> stamped(before, after, cat_cells(a.pattern), ox as int, oy as int)
            &&& !a.placed ==> after == before
        },
        _ => !a.placed && after == before,
    }
}

/// The draws attempt `a` made, each as the end of its range and the number
/// drawn: its roll, then, when it drew a spot, the column and the row.
pub open spec fn attempt_draws(a: Attempt) -> Seq<(u32, u32)> {
    let roll = seq![(a.roll_range, a.roll)];
    match (a.spot, a.spot_range) {
        (Some((ox, oy)), Some((rx, ry))) => roll + seq![(rx, ox as u32), (ry, oy as u32)],
        _ => roll,
    }
}

/// The draws a sequence of attempts made, in order.
pub open spec fn log_draws(attempts: Seq<Attempt>) -> Seq<(u32, u32)>
    decreases attempts.len(),
{
    if attempts.len() == 0 {
        seq![]
    } else {
        log_draws(attempts.drop_last()) + attempt_draws(attempts.last())
    }
}

/// `log` records a scatter that took `before` to `after`: a board narrower
/// or lower than 10 cells gets no attempt at all (nothing is drawn);
/// any other gets `scatter_attempts` of its cell count, each done on the
/// board the previous one left.
pub open spec fn scatter_done(before: Board, after: Board, log: ScatterLog) -> bool {
    &&& log.boards.len() == log.attempts.len() + 1
    &&& log.boards[0] == before
    &&& log.boards.last() == after
    &&& if before.w < 10 || before.h < 10 {
        log.attempts.len() == 0
    } else {
        &&& log.attempts.len() == scatter_attempts((before.w * before.h) as int)
        &&& forall|k: int|
            0 <= k < log.attempts.len() ==> #[trigger] attempt_done(log.attempts[k], log.boards[k], log.boards[k + 1])
    }
}

/// The cells of `cells`, placed with their corner at `(ox, oy)`, that land
/// on live cells of `b`.
pub open spec fn landed_on_live(b: Board, cells: Seq<(int, int)>, ox: int, oy: int) -> Seq<(int, int)> {
    cells.filter(|c: (int, int)| b.alive(ox + c.0, oy + c.1))
}

/// The overlap counts exactly the cells that land on live cells.
pub proof fn lemma_overlap_counts_landed(b: Board, cells: Seq<(int, int)>, ox: int, oy: int)
    ensures
        overlap(b, cells, ox, oy) == landed_on_live(b, cells, ox, oy).len(),
    decreases cells.len(),
{
    reveal(Seq::filter);
    if cells.len() > 0 {
        lemma_overlap_counts_landed(b, cells.drop_last(), ox, oy);
    }
}

/// Every attempt of a scatter placed its pattern only on a drawn spot, and
/// exactly when at most two fifths of the pattern's cells landed on live
/// cells: then the cells it covers became live and nothing else changed;
/// otherwise the board stayed as it was.
pub proof fn lemma_crowded_spots_are_rejected(before: Board, after: Board, log: ScatterLog, k: int)
    requires
        scatter_done(before, after, log),
        0 <= k < log.attempts.len(),
    ensures
        ({
            let a = log.attempts[k];
            let b = log.boards[k];
            let next = log.boards[k + 1];
            let cells = cat_cells(a.pattern);
            match a.spot {
                Some((ox, oy)) => {
                    &&& a.placed == (landed_on_live(b, cells, ox as int, oy as int).len() * 5 <= cells.len() * 2)
                    &&& !a.placed ==> next == b
                    &&& a.placed ==> next.w == b.w && next.h == b.h && forall|x: int, y: int|
                        #[trigger] next.alive(x, y) == (b.alive(x, y) || (b.in_bounds(x, y) && exists|j: int|
                            0 <= j < cells.len() && ox + cells[j].0 == x && oy + cells[j].1 == y))
                },
                None => !a.placed && next == b,
            }
        }),
{
    let a = log.attempts[k];
    assert(attempt_done(a, log.boards[k], log.boards[k + 1]));
    if let Some((ox, oy)) = a.spot {
        lemma_overlap_counts_landed(log.boards[k], cat_cells(a.pattern), ox as int, oy as int);
    }
}

/// `b` has no live cell.
pub open spec fn all_dead(b: Board) -> bool {
    forall|x: int, y: int| !#[trigger] b.alive(x, y)
}

/// Nothing overlaps a board without live cells.
pub proof fn lemma_no_overlap_on_dead(b: Board, cells: Seq<(int, int)>, ox: int, oy: int)
    requires
        all_dead(b),
    ensures
        overlap(b, cells, ox, oy) == 0,
    decreases cells.len(),
{
    if cells.len() > 0 {
        lemma_no_overlap_on_dead(b, cells.drop_last(), ox, oy);
        assert(!b.alive(ox + cells.last().0, oy + cells.last().1));
    }
}

/// How many placements a scatter tries on a board of `cells` cells: one per
/// 600 cells, but no fewer than 5 and no more than 80.
pub open spec fn scatter_attempts(cells: int) -> int {
    let a = cells / 600;
    if a < 5 { 5 } else if a > 80 { 80 } else { a }
}

/// The running weight sums of a list of patterns with the catalog's
/// weights are the catalog's.
pub proof fn lemma_prefix_matches(cat: Seq<Pattern>, n: int)
    requires
        cat.len() == catalog_spec().len(),
        forall|i: int| 0 <= i < cat.len() ==> #[trigger] cat[i].weight == catalog_spec()[i].2,
        0 <= n <= cat.len(),
    ensures
        weight_prefix(cat, n) == cat_prefix(n),
    decreases n,
{
    if n > 0 {
        lemma_prefix_matches(cat, n - 1);
    }
}

/// `n` read as a 16-bit signed number.
fn read_i16(n: usize) -> (r: i64)
    ensures
        r == i16_reading(n as int),
{
    let m = (n % 65536) as i64;
    if m < 32768 {
        m
    } else {
        m - 65536
    }
}

/// Whether scattering handles a `w` by `h` grid (see `scatter_size_ok`).
pub fn scatter_handles(w: usize, h: usize) -> (ok: bool)
    ensures
        ok == scatter_size_ok(w as int, h as int),
{
    if w < 10 || h < 10 {
        return true;
    }
    let cw = read_i16(w);
    let ch = read_i16(h);
    let cat = catalog();
    let mut k: usize = 0;
    while k < cat.len()
        invariant
            10 <= w,
            10 <= h,
            cw == i16_reading(w as int),
            ch == i16_reading(h as int),
            k <= cat.len(),
            cat.len() == catalog_spec().len(),
            forall|j: int| 0 <= j < cat.len() ==> (#[trigger] cat@[j]).describes(catalog_spec()[j].1),
            catalog_wf(cat@),
            forall|j: int|
                0 <= j < k && #[trigger] cat_fits(j, w as int, h as int) ==> cat_w(j) + 3 < i16_reading(w as int)
                    && cat_h(j) + 3 < i16_reading(h as int),
        decreases cat.len() - k,
    {
        assert(cat@[k as int].describes(catalog_spec()[k as int].1));
        let pw = (cat[k].w + 3) as usize;
        let ph = (cat[k].h + 3) as usize;
        if pw < w && ph < h && !((pw as i64) < cw && (ph as i64) < ch) {
            assert(cat_fits(k as int, w as int, h as int));
            return false;
        }
        k = k + 1;
    }
    true
}

/// The sum of the weights of `cat`, the end of the range a scatter rolls
/// in.
pub fn total_weight(cat: &Vec<Pattern>) -> (total: u32)
    requires
        weight_prefix(cat@, cat.len() as int) <= u32::MAX,
    ensures
        total == weight_prefix(cat@, cat.len() as int),
{
    let mut total: u32 = 0;
    let mut k: usize = 0;
    while k < cat.len()
        invariant
            k <= cat.len(),
            weight_prefix(cat@, cat.len() as int) <= u32::MAX,
            total == weight_prefix(cat@, k as int),
        decreases cat.len() - k,
    {
        proof {
            lemma_weight_prefix_monotone(cat@, k + 1, cat.len() as int);
        }
        total = total + cat[k].weight;
        k = k + 1;
    }
    total
}

/// The ends of the ranges a scatter draws the corner of `p` from on a `w`
/// by `h` grid: none when `p` with a margin of three cells does not fit;
/// otherwise the width read as a 16-bit number less the pattern's width and
/// three, and likewise for the height.
pub fn spot_room(w: usize, h: usize, p: &Pattern) -> (room: Option<(u32, u32)>)
    requires
        p.wf(),
        p.w <= 32001,
        p.h <= 32001,
        p.w + 3 < w && p.h + 3 < h ==> p.w + 3 < i16_reading(w as int) && p.h + 3 < i16_reading(h as int),
    ensures
        (room is Some) == (p.w + 3 < w && p.h + 3 < h),
        room matches Some((rx, ry)) ==> rx == i16_reading(w as int) - p.w - 3 && ry == i16_reading(h as int)
            - p.h - 3,
{
    let pw = (p.w + 3) as usize;
    let ph = (p.h + 3) as usize;
    if pw >= w || ph >= h {
        return None;
    }
    // Spots are drawn within the sides read as 16-bit numbers.
    let cw = read_i16(w);
    let ch = read_i16(h);
    proof {
        lemma_i16_reading_bounds(w as int);
        lemma_i16_reading_bounds(h as int);
    }
    Some(((cw - pw as i64) as u32, (ch - ph as i64) as u32))
}

/// Scatters random patterns from the catalog over the grid: a number of
/// attempts that grows with the grid's size, each picking a pattern by
/// weight and a random spot that leaves a margin of three cells beyond the
/// pattern's box towards the right and bottom edges (spots are drawn within
/// the sides read as 16-bit numbers), and placing it there unless it would
/// land mostly on live cells. A grid narrower or lower than 10 cells is left
/// alone, with nothing drawn. Patterns are only added: no live cell dies.
/// The returned log records every attempt and what it did to the grid, and
/// the draws made from `draws` are exactly those the log lists.
pub fn scatter(grid: &mut Grid, draws: &mut Draws) -> (log: Ghost<ScatterLog>)
    requires
        old(grid).wf(),
        scatter_size_ok(old(grid)@.w as int, old(grid)@.h as int),
    ensures
        final(grid).wf(),
        scatter_done(old(grid)@, final(grid)@, log@),
        only_adds(old(grid)@, final(grid)@),
        added_with_margin(old(grid)@, final(grid)@),
        (old(grid)@.w < 10 || old(grid)@.h < 10) ==> final(grid)@ == old(grid)@,
        final(draws)@ == old(draws)@ + log_draws(log@.attempts),
        (old(grid)@.w < 10 || old(grid)@.h < 10) ==> *final(draws) == *old(draws),
        all_dead(old(grid)@) && 10 <= old(grid)@.w && 10 <= old(grid)@.h && catalog_fits(
            old(grid)@.w as int,
            old(grid)@.h as int,
        ) ==> !all_dead(final(grid)@),
{
    let ghost mut log = ScatterLog { attempts: seq![], boards: seq![grid@] };
    let gw = grid.width();
    let gh = grid.height();
    if gw < 10 || gh < 10 {
        return Ghost(log);
    }
    let cat = catalog();
    proof {
        grid.lemma_view_wf();
    }
    let cells = gw * gh;
    let per = cells / 600;
    let attempts: usize = if per < 5 {
        5
    } else if per > 80 {
        80
    } else {
        per
    };
    assert(attempts == scatter_attempts(cells as int));

    let roll_end = total_weight(&cat);
    proof {
        assert forall|j: int| 0 <= j < cat.len() implies #[trigger] cat@[j].weight == catalog_spec()[j].2 by {}
        assert forall|n: int| 0 <= n <= cat.len() implies #[trigger] weight_prefix(cat@, n) == cat_prefix(n) by {
            lemma_prefix_matches(cat@, n);
        }
    }

    let ghost fresh = all_dead(old(grid)@) && catalog_fits(gw as int, gh as int);
    let mut attempt: usize = 0;
    while attempt < attempts
        invariant
            grid.wf(),
            gw == grid@.w,
            gh == grid@.h,
            10 <= gw,
            10 <= gh,
            scatter_size_ok(gw as int, gh as int),
            draws@ == old(draws)@ + log_draws(log.attempts),
            cat.len() == catalog_spec().len(),
            forall|j: int| 0 <= j < cat.len() ==> {
                &&& (#[trigger] cat@[j]).describes(catalog_spec()[j].1)
                &&& cat@[j].weight == catalog_spec()[j].2
            },
            catalog_wf(cat@),
            weight_prefix(cat@, cat.len() as int) == 30,
            forall|n: int| 0 <= n <= cat.len() ==> #[trigger] weight_prefix(cat@, n) == cat_prefix(n),
            roll_end == 30,
            only_adds(old(grid)@, grid@),
            added_with_margin(old(grid)@, grid@),
            attempt <= attempts,
            attempt == 0 ==> grid@ == old(grid)@,
            fresh == (all_dead(old(grid)@) && catalog_fits(gw as int, gh as int)),
            fresh && attempt > 0 ==> !all_dead(grid@),
            log.attempts.len() == attempt,
            log.boards.len() == attempt + 1,
            log.boards[0] == old(grid)@,
            log.boards.last() == grid@,
            forall|k: int|
                0 <= k < log.attempts.len() ==> #[trigger] attempt_done(log.attempts[k], log.boards[k], log.boards[k + 1]),
        decreases attempts - attempt,
    {
        let ghost first = attempt == 0;
        let ghost before = grid@;
        let ghost prev_log = log;
        attempt = attempt + 1;
        let roll_range = roll_end;
        let roll = draws.below(roll_range);
        let i = pick_pattern(&cat, roll);
        let chosen = &cat[i];
        assert(chosen.describes(catalog_spec()[i as int].1));
        assert(chosen.cell_seq() == cat_cells(i as int));
        proof {
            if cat_fits(i as int, gw as int, gh as int) {
            }
        }
        let room = spot_room(gw, gh, chosen);
        let (rx, ry) = match room {
            Some(r) => r,
            None => {
                proof {
                    grid.lemma_view_wf();
                    assert(weight_prefix(cat@, i as int) == cat_prefix(i as int));
                    assert(weight_prefix(cat@, i + 1) == cat_prefix(i + 1));
                    let a = Attempt {
                        roll,
                        roll_range,
                        pattern: i as int,
                        spot: None,
                        spot_range: None,
                        placed: false,
                    };
                    log = ScatterLog { attempts: log.attempts.push(a), boards: log.boards.push(grid@) };
                    assert(log.attempts.drop_last() =~= prev_log.attempts);
                    assert(attempt_done(a, before, grid@));
                    assert forall|k: int|
                        0 <= k < log.attempts.len() implies #[trigger] attempt_done(log.attempts[k], log.boards[k], log.boards[k + 1]) by {
                        if k < prev_log.attempts.len() {
                            assert(log.attempts[k] == prev_log.attempts[k]);
                            assert(log.boards[k] == prev_log.boards[k]);
                            assert(log.boards[k + 1] == prev_log.boards[k + 1]);
                        }
                    }
                    if fresh {
                        assert(cat_fits(i as int, gw as int, gh as int));
                    }
                }
                continue;
            },
        };
        let x_range = rx;
        let x_drawn = draws.below(x_range);
        let y_range = ry;
        let y_drawn = draws.below(y_range);
        proof {
            lemma_i16_reading_bounds(gw as int);
            lemma_i16_reading_bounds(gh as int);
        }
        let ox = x_drawn as i16;
        let oy = y_drawn as i16;
        proof {
            if fresh && first {
                lemma_no_overlap_on_dead(before, chosen.cell_seq(), ox as int, oy as int);
            }
            grid.lemma_view_wf();
        }
        let placed = try_place(grid, chosen, ox, oy);
        proof {
            assert(weight_prefix(cat@, i as int) == cat_prefix(i as int));
            assert(weight_prefix(cat@, i + 1) == cat_prefix(i + 1));
            let a = Attempt {
                roll,
                roll_range,
                pattern: i as int,
                spot: Some((ox, oy)),
                spot_range: Some((x_range, y_range)),
                placed,
            };
            log = ScatterLog { attempts: log.attempts.push(a), boards: log.boards.push(grid@) };
            assert(log.attempts.drop_last() =~= prev_log.attempts);
            grid.lemma_view_wf();
            assert(attempt_done(a, before, grid@));
            assert forall|k: int|
                0 <= k < log.attempts.len() implies #[trigger] attempt_done(log.attempts[k], log.boards[k], log.boards[k + 1]) by {
                if k < prev_log.attempts.len() {
                    assert(log.attempts[k] == prev_log.attempts[k]);
                    assert(log.boards[k] == prev_log.boards[k]);
                    assert(log.boards[k + 1] == prev_log.boards[k + 1]);
                }
            }
            if fresh && first {
                let c0 = chosen.cell_seq()[0];
                assert(c0 == cell_view(chosen.cells@[0]));
                assert(covers(chosen.cell_seq(), ox as int, oy as int, ox + c0.0, oy + c0.1));
                assert(grid@.alive(ox + c0.0, oy + c0.1));
            }
            if fresh && !first && placed {
                let (x, y) = choose|x: int, y: int| before.alive(x, y);
                assert(grid@.alive(x, y));
            }
            if placed {
                assert forall|x: int, y: int| old(grid)@.alive(x, y) implies #[trigger] grid@.alive(x, y) by {
                    assert(before.alive(x, y));
                }
                assert forall|x: int, y: int|
                    #[trigger] grid@.alive(x, y) && !old(grid)@.alive(x, y) implies x + 4 < grid@.w && y + 4
                    < grid@.h by {
                    if !before.alive(x, y) {
                        let cs = chosen.cell_seq();
                        assert(covers(cs, ox as int, oy as int, x, y));
                        let k = choose|k: int| 0 <= k < cs.len() && ox + (#[trigger] cs[k]).0 == x && oy + cs[k].1 == y;
                        assert(cs[k] == cell_view(chosen.cells@[k]));
                    }
                }
            }
        }
    }
    Ghost(log)
}

} // verus!
