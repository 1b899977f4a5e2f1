use vstd::prelude::*;
use crate::grid::Board;
use crate::patterns::{art_cells, cat_cells, cat_h, cat_w, col_after, max_col, max_row, row_after};

verus! {

/// `b` with every cell of `cells`, moved `ox` columns right and `oy` rows
/// down, made live.
pub open spec fn painted(b: Board, cells: Seq<(int, int)>, ox: int, oy: int) -> Board
    decreases cells.len(),
{
    if cells.len() == 0 {
        b
    } else {
        painted(b, cells.drop_last(), ox, oy).set(ox + cells.last().0, oy + cells.last().1, true)
    }
}

/// Catalog pattern `i` alone on a board two cells wider than its box on
/// each side, its box's corner at `(2, 2)`.
pub open spec fn framed(i: int) -> Board {
    painted(Board::dead((cat_w(i) + 4) as nat, (cat_h(i) + 4) as nat), cat_cells(i), 2, 2)
}

/// The still lifes of the catalog (block, beehive, loaf, boat and tub),
/// each alone on a board with two dead cells round its box, do not change
/// from one generation to the next.
pub proof fn lemma_still_lifes_stay(i: int)
    requires
        0 <= i < 5,
    ensures
        framed(i).step() == framed(i),
{
    if i == 0 {
        lemma_block_stays();
    } else if i == 1 {
        lemma_beehive_stays();
    } else if i == 2 {
        lemma_loaf_stays();
    } else if i == 3 {
        lemma_boat_stays();
    } else {
        lemma_tub_stays();
    }
}

/// The first oscillators of the catalog (blinker, toad and beacon), each
/// alone on a board with two dead cells round its box, change in one
/// generation and are back after two.
pub proof fn lemma_oscillators_repeat(i: int)
    requires
        5 <= i < 8,
    ensures
        framed(i).step() != framed(i),
        framed(i).step().step() == framed(i),
{
    if i == 5 {
        lemma_blinker_repeats();
    } else if i == 6 {
        lemma_toad_repeats();
    } else {
        lemma_beacon_repeats();
    }
}

/// A cell index below 64 is one of the 64 values.
proof fn lemma_index_cases(k: int, n: int)
    requires
        0 <= k < n,
        n <= 64,
    ensures
        k == 0 || k == 1 || k == 2 || k == 3 || k == 4 || k == 5 || k == 6 || k == 7
            || k == 8 || k == 9 || k == 10 || k == 11 || k == 12 || k == 13 || k == 14 || k == 15
            || k == 16 || k == 17 || k == 18 || k == 19 || k == 20 || k == 21 || k == 22 || k == 23
            || k == 24 || k == 25 || k == 26 || k == 27 || k == 28 || k == 29 || k == 30 || k == 31
            || k == 32 || k == 33 || k == 34 || k == 35 || k == 36 || k == 37 || k == 38 || k == 39
            || k == 40 || k == 41 || k == 42 || k == 43 || k == 44 || k == 45 || k == 46 || k == 47
            || k == 48 || k == 49 || k == 50 || k == 51 || k == 52 || k == 53 || k == 54 || k == 55
            || k == 56 || k == 57 || k == 58 || k == 59 || k == 60 || k == 61 || k == 62 || k == 63,
{
}

/// Catalog pattern 0, the block, has these cells and this box.
proof fn lemma_block_cells()
    ensures
        cat_cells(0) == seq![(0int, 0int), (1, 0), (0, 1), (1, 1)],
        cat_w(0) == 2,
        cat_h(0) == 2,
{
    reveal_strlit("OO\nOO");
    reveal_with_fuel(art_cells, 6);
    reveal_with_fuel(col_after, 6);
    reveal_with_fuel(row_after, 6);
    reveal_with_fuel(max_col, 5);
    reveal_with_fuel(max_row, 5);
}

/// The block alone on its board, cells listed by index.
spec fn block_board() -> Board {
    Board { w: 6, h: 6, cells: Seq::new(36, |k: int| k == 14 || k == 15 || k == 20 || k == 21) }
}

/// The framed block is that board.
proof fn lemma_block_board()
    ensures
        framed(0) == block_board(),
{
    lemma_block_cells();
    reveal_with_fuel(painted, 5);
    let c = Board::dead(6, 6).set(2, 2, true).set(3, 2, true).set(2, 3, true).set(3, 3, true);
    assert(framed(0) == c);
    assert(c.cells =~= block_board().cells);
}

/// The block stays as it is.
proof fn lemma_block_stays()
    ensures
        framed(0).step() == framed(0),
{
    lemma_block_board();
    let b = block_board();
    let s = b.step();
    assert forall|k: int| 0 <= k < 36 implies s.cells[k] == b.cells[k] by {
        lemma_index_cases(k, 36);
    }
    assert(s.cells =~= b.cells);
}

/// Catalog pattern 1, the beehive, has these cells and this box.
proof fn lemma_beehive_cells()
    ensures
        cat_cells(1) == seq![(1int, 0int), (2, 0), (0, 1), (3, 1), (1, 2), (2, 2)],
        cat_w(1) == 4,
        cat_h(1) == 3,
{
    reveal_strlit(".OO.\nO..O\n.OO.");
    reveal_with_fuel(art_cells, 15);
    reveal_with_fuel(col_after, 15);
    reveal_with_fuel(row_after, 15);
    reveal_with_fuel(max_col, 7);
    reveal_with_fuel(max_row, 7);
}

/// The beehive alone on its board, cells listed by index.
spec fn beehive_board() -> Board {
    Board { w: 8, h: 7, cells: Seq::new(56, |k: int| k == 19 || k == 20 || k == 26 || k == 29 || k == 35 || k == 36) }
}

/// The framed beehive is that board.
proof fn lemma_beehive_board()
    ensures
        framed(1) == beehive_board(),
{
    lemma_beehive_cells();
    reveal_with_fuel(painted, 7);
    let c = Board::dead(8, 7).set(3, 2, true).set(4, 2, true).set(2, 3, true).set(5, 3, true).set(3, 4, true).set(4, 4, true);
    assert(framed(1) == c);
    assert(c.cells =~= beehive_board().cells);
}

/// The beehive stays as it is.
proof fn lemma_beehive_stays()
    ensures
        framed(1).step() == framed(1),
{
    lemma_beehive_board();
    let b = beehive_board();
    let s = b.step();
    assert forall|k: int| 0 <= k < 56 implies s.cells[k] == b.cells[k] by {
        lemma_index_cases(k, 56);
    }
    assert(s.cells =~= b.cells);
}

/// Catalog pattern 2, the loaf, has these cells and this box.
proof fn lemma_loaf_cells()
    ensures
        cat_cells(2) == seq![(1int, 0int), (2, 0), (0, 1), (3, 1), (1, 2), (3, 2), (2, 3)],
        cat_w(2) == 4,
        cat_h(2) == 4,
{
    reveal_strlit(".OO.\nO..O\n.O.O\n..O.");
    reveal_with_fuel(art_cells, 20);
    reveal_with_fuel(col_after, 20);
    reveal_with_fuel(row_after, 20);
    reveal_with_fuel(max_col, 8);
    reveal_with_fuel(max_row, 8);
}

/// The loaf alone on its board, cells listed by index.
spec fn loaf_board() -> Board {
    Board { w: 8, h: 8, cells: Seq::new(64, |k: int| k == 19 || k == 20 || k == 26 || k == 29 || k == 35 || k == 37 || k == 44) }
}

/// The framed loaf is that board.
proof fn lemma_loaf_board()
    ensures
        framed(2) == loaf_board(),
{
    lemma_loaf_cells();
    reveal_with_fuel(painted, 8);
    let c = Board::dead(8, 8).set(3, 2, true).set(4, 2, true).set(2, 3, true).set(5, 3, true).set(3, 4, true).set(5, 4, true).set(4, 5, true);
    assert(framed(2) == c);
    assert(c.cells =~= loaf_board().cells);
}

/// The loaf stays as it is.
proof fn lemma_loaf_stays()
    ensures
        framed(2).step() == framed(2),
{
    lemma_loaf_board();
    let b = loaf_board();
    let s = b.step();
    assert forall|k: int| 0 <= k < 64 implies s.cells[k] == b.cells[k] by {
        lemma_index_cases(k, 64);
    }
    assert(s.cells =~= b.cells);
}

/// Catalog pattern 3, the boat, has these cells and this box.
proof fn lemma_boat_cells()
    ensures
        cat_cells(3) == seq![(0int, 0int), (1, 0), (0, 1), (2, 1), (1, 2)],
        cat_w(3) == 3,
        cat_h(3) == 3,
{
    reveal_strlit("OO.\nO.O\n.O.");
    reveal_with_fuel(art_cells, 12);
    reveal_with_fuel(col_after, 12);
    reveal_with_fuel(row_after, 12);
    reveal_with_fuel(max_col, 6);
    reveal_with_fuel(max_row, 6);
}

/// The boat alone on its board, cells listed by index.
spec fn boat_board() -> Board {
    Board { w: 7, h: 7, cells: Seq::new(49, |k: int| k == 16 || k == 17 || k == 23 || k == 25 || k == 31) }
}

/// The framed boat is that board.
proof fn lemma_boat_board()
    ensures
        framed(3) == boat_board(),
{
    lemma_boat_cells();
    reveal_with_fuel(painted, 6);
    let c = Board::dead(7, 7).set(2, 2, true).set(3, 2, true).set(2, 3, true).set(4, 3, true).set(3, 4, true);
    assert(framed(3) == c);
    assert(c.cells =~= boat_board().cells);
}

/// The boat stays as it is.
proof fn lemma_boat_stays()
    ensures
        framed(3).step() == framed(3),
{
    lemma_boat_board();
    let b = boat_board();
    let s = b.step();
    assert forall|k: int| 0 <= k < 49 implies s.cells[k] == b.cells[k] by {
        lemma_index_cases(k, 49);
    }
    assert(s.cells =~= b.cells);
}

/// Catalog pattern 4, the tub, has these cells and this box.
proof fn lemma_tub_cells()
    ensures
        cat_cells(4) == seq![(1int, 0int), (0, 1), (2, 1), (1, 2)],
        cat_w(4) == 3,
        cat_h(4) == 3,
{
    reveal_strlit(".O.\nO.O\n.O.");
    reveal_with_fuel(art_cells, 12);
    reveal_with_fuel(col_after, 12);
    reveal_with_fuel(row_after, 12);
    reveal_with_fuel(max_col, 5);
    reveal_with_fuel(max_row, 5);
}

/// The tub alone on its board, cells listed by index.
spec fn tub_board() -> Board {
    Board { w: 7, h: 7, cells: Seq::new(49, |k: int| k == 17 || k == 23 || k == 25 || k == 31) }
}

/// The framed tub is that board.
proof fn lemma_tub_board()
    ensures
        framed(4) == tub_board(),
{
    lemma_tub_cells();
    reveal_with_fuel(painted, 5);
    let c = Board::dead(7, 7).set(3, 2, true).set(2, 3, true).set(4, 3, true).set(3, 4, true);
    assert(framed(4) == c);
    assert(c.cells =~= tub_board().cells);
}

/// The tub stays as it is.
proof fn lemma_tub_stays()
    ensures
        framed(4).step() == framed(4),
{
    lemma_tub_board();
    let b = tub_board();
    let s = b.step();
    assert forall|k: int| 0 <= k < 49 implies s.cells[k] == b.cells[k] by {
        lemma_index_cases(k, 49);
    }
    assert(s.cells =~= b.cells);
}

/// Catalog pattern 5, the blinker, has these cells and this box.
proof fn lemma_blinker_cells()
    ensures
        cat_cells(5) == seq![(0int, 0int), (1, 0), (2, 0)],
        cat_w(5) == 3,
        cat_h(5) == 1,
{
    reveal_strlit("OOO");
    reveal_with_fuel(art_cells, 4);
    reveal_with_fuel(col_after, 4);
    reveal_with_fuel(row_after, 4);
    reveal_with_fuel(max_col, 4);
    reveal_with_fuel(max_row, 4);
}

/// The blinker alone on its board, cells listed by index.
spec fn blinker_board() -> Board {
    Board { w: 7, h: 5, cells: Seq::new(35, |k: int| k == 16 || k == 17 || k == 18) }
}

/// The framed blinker is that board.
proof fn lemma_blinker_board()
    ensures
        framed(5) == blinker_board(),
{
    lemma_blinker_cells();
    reveal_with_fuel(painted, 4);
    let c = Board::dead(7, 5).set(2, 2, true).set(3, 2, true).set(4, 2, true);
    assert(framed(5) == c);
    assert(c.cells =~= blinker_board().cells);
}

/// The blinker's other phase.
spec fn blinker_turned() -> Board {
    Board { w: 7, h: 5, cells: Seq::new(35, |k: int| k == 10 || k == 17 || k == 24) }
}

/// A generation turns the blinker into its other phase.
proof fn lemma_blinker_turns()
    ensures
        blinker_board().step() == blinker_turned(),
{
    let s = blinker_board().step();
    assert forall|k: int| 0 <= k < 35 implies s.cells[k] == blinker_turned().cells[k] by {
        lemma_index_cases(k, 35);
    }
    assert(s.cells =~= blinker_turned().cells);
}

/// A generation turns the blinker's other phase back.
proof fn lemma_blinker_returns()
    ensures
        blinker_turned().step() == blinker_board(),
{
    let s = blinker_turned().step();
    assert forall|k: int| 0 <= k < 35 implies s.cells[k] == blinker_board().cells[k] by {
        lemma_index_cases(k, 35);
    }
    assert(s.cells =~= blinker_board().cells);
}

/// The blinker turns into its other phase and back.
proof fn lemma_blinker_repeats()
    ensures
        framed(5).step() != framed(5),
        framed(5).step().step() == framed(5),
{
    lemma_blinker_board();
    lemma_blinker_turns();
    lemma_blinker_returns();
    assert(blinker_board().cells[16] != blinker_turned().cells[16]);
}

/// Catalog pattern 6, the toad, has these cells and this box.
proof fn lemma_toad_cells()
    ensures
        cat_cells(6) == seq![(1int, 0int), (2, 0), (3, 0), (0, 1), (1, 1), (2, 1)],
        cat_w(6) == 4,
        cat_h(6) == 2,
{
    reveal_strlit(".OOO\nOOO.");
    reveal_with_fuel(art_cells, 10);
    reveal_with_fuel(col_after, 10);
    reveal_with_fuel(row_after, 10);
    reveal_with_fuel(max_col, 7);
    reveal_with_fuel(max_row, 7);
}

/// The toad alone on its board, cells listed by index.
spec fn toad_board() -> Board {
    Board { w: 8, h: 6, cells: Seq::new(48, |k: int| k == 19 || k == 20 || k == 21 || k == 26 || k == 27 || k == 28) }
}

/// The framed toad is that board.
proof fn lemma_toad_board()
    ensures
        framed(6) == toad_board(),
{
    lemma_toad_cells();
    reveal_with_fuel(painted, 7);
    let c = Board::dead(8, 6).set(3, 2, true).set(4, 2, true).set(5, 2, true).set(2, 3, true).set(3, 3, true).set(4, 3, true);
    assert(framed(6) == c);
    assert(c.cells =~= toad_board().cells);
}

/// The toad's other phase.
spec fn toad_turned() -> Board {
    Board { w: 8, h: 6, cells: Seq::new(48, |k: int| k == 12 || k == 18 || k == 21 || k == 26 || k == 29 || k == 35) }
}

/// A generation turns the toad into its other phase.
proof fn lemma_toad_turns()
    ensures
        toad_board().step() == toad_turned(),
{
    let s = toad_board().step();
    assert forall|k: int| 0 <= k < 48 implies s.cells[k] == toad_turned().cells[k] by {
        lemma_index_cases(k, 48);
    }
    assert(s.cells =~= toad_turned().cells);
}

/// A generation turns the toad's other phase back.
proof fn lemma_toad_returns()
    ensures
        toad_turned().step() == toad_board(),
{
    let s = toad_turned().step();
    assert forall|k: int| 0 <= k < 48 implies s.cells[k] == toad_board().cells[k] by {
        lemma_index_cases(k, 48);
    }
    assert(s.cells =~= toad_board().cells);
}

/// The toad turns into its other phase and back.
proof fn lemma_toad_repeats()
    ensures
        framed(6).step() != framed(6),
        framed(6).step().step() == framed(6),
{
    lemma_toad_board();
    lemma_toad_turns();
    lemma_toad_returns();
    assert(toad_board().cells[19] != toad_turned().cells[19]);
}

/// Catalog pattern 7, the beacon, has these cells and this box.
proof fn lemma_beacon_cells()
    ensures
        cat_cells(7) == seq![(0int, 0int), (1, 0), (0, 1), (1, 1), (2, 2), (3, 2), (2, 3), (3, 3)],
        cat_w(7) == 4,
        cat_h(7) == 4,
{
    reveal_strlit("OO..\nOO..\n..OO\n..OO");
    reveal_with_fuel(art_cells, 20);
    reveal_with_fuel(col_after, 20);
    reveal_with_fuel(row_after, 20);
    reveal_with_fuel(max_col, 9);
    reveal_with_fuel(max_row, 9);
}

/// The beacon alone on its board, cells listed by index.
spec fn beacon_board() -> Board {
    Board { w: 8, h: 8, cells: Seq::new(64, |k: int| k == 18 || k == 19 || k == 26 || k == 27 || k == 36 || k == 37 || k == 44 || k == 45) }
}

/// The framed beacon is that board.
proof fn lemma_beacon_board()
    ensures
        framed(7) == beacon_board(),
{
    lemma_beacon_cells();
    reveal_with_fuel(painted, 9);
    let c = Board::dead(8, 8).set(2, 2, true).set(3, 2, true).set(2, 3, true).set(3, 3, true).set(4, 4, true).set(5, 4, true).set(4, 5, true).set(5, 5, true);
    assert(framed(7) == c);
    assert(c.cells =~= beacon_board().cells);
}

/// The beacon's other phase.
spec fn beacon_turned() -> Board {
    Board { w: 8, h: 8, cells: Seq::new(64, |k: int| k == 18 || k == 19 || k == 26 || k == 37 || k == 44 || k == 45) }
}

/// A generation turns the beacon into its other phase.
proof fn lemma_beacon_turns()
    ensures
        beacon_board().step() == beacon_turned(),
{
    let s = beacon_board().step();
    assert forall|k: int| 0 <= k < 64 implies s.cells[k] == beacon_turned().cells[k] by {
        lemma_index_cases(k, 64);
    }
    assert(s.cells =~= beacon_turned().cells);
}

/// A generation turns the beacon's other phase back.
proof fn lemma_beacon_returns()
    ensures
        beacon_turned().step() == beacon_board(),
{
    let s = beacon_turned().step();
    assert forall|k: int| 0 <= k < 64 implies s.cells[k] == beacon_board().cells[k] by {
        lemma_index_cases(k, 64);
    }
    assert(s.cells =~= beacon_board().cells);
}

/// The beacon turns into its other phase and back.
proof fn lemma_beacon_repeats()
    ensures
        framed(7).step() != framed(7),
        framed(7).step().step() == framed(7),
{
    lemma_beacon_board();
    lemma_beacon_turns();
    lemma_beacon_returns();
    assert(beacon_board().cells[27] != beacon_turned().cells[27]);
}

} // verus!
