use conway::grid::Grid;

fn live_cells(g: &Grid) -> Vec<(usize, usize)> {
    let mut v = Vec::new();
    for y in 0..g.height() {
        for x in 0..g.width() {
            if g.get(x, y) {
                v.push((x, y));
            }
        }
    }
    v
}

fn grid_with(w: usize, h: usize, cells: &[(usize, usize)]) -> Grid {
    let mut g = Grid::new(w, h);
    for &(x, y) in cells {
        g.set(x, y, true);
    }
    g
}

#[test]
fn new_grid_is_dead() {
    let g = Grid::new(4, 3);
    assert_eq!(g.width(), 4);
    assert_eq!(g.height(), 3);
    assert_eq!(g.width(), 4);
    assert_eq!(g.height(), 3);
    assert!(live_cells(&g).is_empty());
}

#[test]
fn set_then_get_reads_back() {
    let mut g = Grid::new(5, 5);
    g.set(2, 3, true);
    assert!(g.get(2, 3));
    assert!(!g.get(3, 2));
    g.set(2, 3, false);
    assert!(!g.get(2, 3));
}

#[test]
fn off_grid_reads_dead_and_writes_nothing() {
    let mut g = Grid::new(3, 3);
    g.set(3, 0, true);
    g.set(0, 3, true);
    g.toggle(7, 7);
    assert!(live_cells(&g).is_empty());
    assert!(!g.get(3, 0));
    assert!(!g.get(100, 100));
}

#[test]
fn toggle_twice_restores() {
    let mut g = grid_with(4, 4, &[(1, 1)]);
    g.toggle(1, 1);
    assert!(!g.get(1, 1));
    g.toggle(1, 1);
    assert!(g.get(1, 1));
    g.toggle(2, 0);
    g.toggle(2, 0);
    assert_eq!(live_cells(&g), vec![(1, 1)]);
}

#[test]
fn clear_kills_everything() {
    let mut g = grid_with(4, 4, &[(0, 0), (3, 3), (1, 2)]);
    g.clear();
    assert!(live_cells(&g).is_empty());
    assert_eq!((g.width(), g.height()), (4, 4));
}

#[test]
fn resize_gives_dead_grid_of_new_size() {
    let mut g = grid_with(4, 4, &[(0, 0)]);
    g.resize(7, 2);
    assert_eq!((g.width(), g.height()), (7, 2));
    assert!(live_cells(&g).is_empty());
    g.set(6, 1, true);
    assert!(g.get(6, 1));
}

#[test]
fn block_is_still_life() {
    let cells = [(1, 1), (2, 1), (1, 2), (2, 2)];
    let mut g = grid_with(6, 6, &cells);
    for _ in 0..5 {
        g.tick();
        assert_eq!(live_cells(&g), vec![(1, 1), (2, 1), (1, 2), (2, 2)]);
    }
}

#[test]
fn blinker_oscillates_with_period_two() {
    let mut g = grid_with(5, 5, &[(1, 2), (2, 2), (3, 2)]);
    g.tick();
    assert_eq!(live_cells(&g), vec![(2, 1), (2, 2), (2, 3)]);
    g.tick();
    assert_eq!(live_cells(&g), vec![(1, 2), (2, 2), (3, 2)]);
}

#[test]
fn glider_moves_one_cell_diagonally_every_four_ticks() {
    let start = [(1, 0), (2, 1), (0, 2), (1, 2), (2, 2)];
    let mut g = grid_with(8, 8, &start);
    for _ in 0..4 {
        g.tick();
    }
    let mut expected: Vec<(usize, usize)> = start.iter().map(|&(x, y)| (x + 1, y + 1)).collect();
    expected.sort_by_key(|&(x, y)| (y, x));
    assert_eq!(live_cells(&g), expected);
}

#[test]
fn edges_wrap_around() {
    // A blinker across the left and right edges of the board.
    let mut g = grid_with(5, 5, &[(4, 2), (0, 2), (1, 2)]);
    g.tick();
    assert_eq!(live_cells(&g), vec![(0, 1), (0, 2), (0, 3)]);
    g.tick();
    assert_eq!(live_cells(&g), vec![(0, 2), (1, 2), (4, 2)]);
}

#[test]
fn birth_survival_and_death() {
    // Three cells in an L: the corner of the L is born, the lonely cell dies.
    let mut g = grid_with(6, 6, &[(1, 1), (2, 1), (1, 2), (4, 4)]);
    g.tick();
    assert_eq!(live_cells(&g), vec![(1, 1), (2, 1), (1, 2), (2, 2)]);
}

#[test]
fn dead_grid_stays_dead() {
    let mut g = Grid::new(7, 4);
    g.tick();
    g.tick();
    assert!(live_cells(&g).is_empty());
}

#[test]
fn empty_grid_ticks_without_change() {
    let mut g = Grid::new(0, 5);
    g.tick();
    assert_eq!((g.width(), g.height()), (0, 5));
    let mut g = Grid::new(3, 0);
    g.tick();
    assert!(!g.get(0, 0));
}

#[test]
fn small_torus_counts_wrapped_neighbours_again() {
    // On a 1 by 1 board the single cell is its own eight neighbours.
    let mut g = grid_with(1, 1, &[(0, 0)]);
    g.tick();
    assert!(!g.get(0, 0));
    // On a 2 by 2 board full of life every cell sees 8 live neighbours.
    let mut g = grid_with(2, 2, &[(0, 0), (1, 0), (0, 1), (1, 1)]);
    g.tick();
    assert!(live_cells(&g).is_empty());
}

#[test]
fn shifting_commutes_with_a_generation() {
    let start = [(1, 0), (2, 1), (0, 2), (1, 2), (2, 2), (5, 5)];
    let (w, h) = (7, 6);
    let (dx, dy) = (4, 5);
    let mut a = grid_with(w, h, &start);
    let shifted: Vec<(usize, usize)> = start.iter().map(|&(x, y)| ((x + dx) % w, (y + dy) % h)).collect();
    let mut b = grid_with(w, h, &shifted);
    for _ in 0..3 {
        a.tick();
        b.tick();
        let mut moved: Vec<(usize, usize)> = live_cells(&a).iter().map(|&(x, y)| ((x + dx) % w, (y + dy) % h)).collect();
        moved.sort_by_key(|&(x, y)| (y, x));
        assert_eq!(live_cells(&b), moved);
    }
}
