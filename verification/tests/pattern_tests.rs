use conway::grid::Grid;
use conway::patterns::{catalog, count_overlap, parse, pick_pattern, scatter, scatter_handles, try_place, Pattern};
use conway::random::Draws;

fn live_count(g: &Grid) -> usize {
    let mut n = 0;
    for y in 0..g.height() {
        for x in 0..g.width() {
            if g.get(x, y) {
                n += 1;
            }
        }
    }
    n
}

#[test]
fn parse_reads_cells_and_box() {
    let p = parse("glider", ".O.\n..O\nOOO", 5);
    assert_eq!(p.name, "glider");
    assert_eq!(p.weight, 5);
    assert_eq!(p.cells, vec![(1, 0), (2, 1), (0, 2), (1, 2), (2, 2)]);
    assert_eq!((p.w, p.h), (3, 3));
}

#[test]
fn parse_accepts_three_live_marks() {
    let p = parse("marks", "O#*.x", 1);
    assert_eq!(p.cells, vec![(0, 0), (1, 0), (2, 0)]);
    assert_eq!((p.w, p.h), (3, 1));
}

#[test]
fn parse_box_ignores_trailing_dead_cells() {
    let p = parse("dot", "...\n.O.\n...\n", 1);
    assert_eq!(p.cells, vec![(1, 1)]);
    assert_eq!((p.w, p.h), (2, 2));
}

#[test]
fn parse_without_live_cells_has_unit_box() {
    let p = parse("empty", "...\n...", 1);
    assert!(p.cells.is_empty());
    assert_eq!((p.w, p.h), (1, 1));
}

#[test]
fn parse_handles_crlf_lines() {
    let p = parse("block", "OO\r\nOO", 1);
    assert_eq!(p.cells, vec![(0, 0), (1, 0), (0, 1), (1, 1)]);
    assert_eq!((p.w, p.h), (2, 2));
}

#[test]
fn catalog_lists_fourteen_weighted_patterns() {
    let cat = catalog();
    let names: Vec<&str> = cat.iter().map(|p| p.name).collect();
    assert_eq!(
        names,
        vec![
            "block", "beehive", "loaf", "boat", "tub", "blinker", "toad", "beacon", "pulsar",
            "glider", "lwss", "mwss", "hwss", "gosper_glider_gun"
        ]
    );
    let weights: Vec<u32> = cat.iter().map(|p| p.weight).collect();
    assert_eq!(weights, vec![1, 1, 1, 1, 1, 2, 2, 2, 2, 5, 4, 3, 3, 2]);
    assert_eq!(weights.iter().sum::<u32>(), 30);
}

#[test]
fn catalog_shapes() {
    let cat = catalog();
    assert_eq!(cat[0].cells, vec![(0, 0), (1, 0), (0, 1), (1, 1)]);
    assert_eq!((cat[0].w, cat[0].h), (2, 2));
    assert_eq!(cat[5].cells, vec![(0, 0), (1, 0), (2, 0)]);
    assert_eq!((cat[8].w, cat[8].h, cat[8].cells.len()), (13, 13, 48));
    assert_eq!(cat[9].cells, vec![(1, 0), (2, 1), (0, 2), (1, 2), (2, 2)]);
    assert_eq!((cat[13].w, cat[13].h, cat[13].cells.len()), (36, 9, 36));
    for p in &cat {
        for &(x, y) in &p.cells {
            assert!(0 <= x && x < p.w && 0 <= y && y < p.h);
        }
    }
}

#[test]
fn pick_follows_cumulative_weights() {
    let cat = catalog();
    assert_eq!(pick_pattern(&cat, 0), 0);
    assert_eq!(pick_pattern(&cat, 4), 4);
    assert_eq!(pick_pattern(&cat, 5), 5);
    assert_eq!(pick_pattern(&cat, 6), 5);
    assert_eq!(pick_pattern(&cat, 7), 6);
    assert_eq!(pick_pattern(&cat, 13), 9);
    assert_eq!(pick_pattern(&cat, 17), 9);
    assert_eq!(pick_pattern(&cat, 18), 10);
    assert_eq!(pick_pattern(&cat, 28), 13);
    assert_eq!(pick_pattern(&cat, 29), 13);
}

#[test]
fn pick_past_total_falls_back_to_first() {
    let cat = catalog();
    assert_eq!(pick_pattern(&cat, 30), 0);
    assert_eq!(pick_pattern(&cat, u32::MAX), 0);
}

fn small(cells: Vec<(i16, i16)>, w: i16, h: i16) -> Pattern {
    Pattern { name: "p", cells, w, h, weight: 1 }
}

#[test]
fn place_on_empty_grid_stamps_pattern() {
    let mut g = Grid::new(10, 10);
    let p = small(vec![(0, 0), (1, 1)], 2, 2);
    assert_eq!(count_overlap(&g, &p, 3, 4), 0);
    assert!(try_place(&mut g, &p, 3, 4));
    assert!(g.get(3, 4));
    assert!(g.get(4, 5));
    assert_eq!(live_count(&g), 2);
}

#[test]
fn place_rejected_when_mostly_overlapping() {
    let mut g = Grid::new(10, 10);
    g.set(3, 4, true);
    // One of two cells overlaps: 1 * 5 > 2 * 2, rejected.
    let p = small(vec![(0, 0), (1, 1)], 2, 2);
    assert_eq!(count_overlap(&g, &p, 3, 4), 1);
    assert!(!try_place(&mut g, &p, 3, 4));
    assert_eq!(live_count(&g), 1);
    // Two of five cells overlap: 2 * 5 <= 5 * 2, placed.
    let q = small(vec![(0, 0), (1, 0), (2, 0), (3, 0), (4, 0)], 5, 1);
    g.set(4, 4, true);
    assert_eq!(count_overlap(&g, &q, 3, 4), 2);
    assert!(try_place(&mut g, &q, 3, 4));
    assert_eq!(live_count(&g), 5);
}

#[test]
fn scatter_leaves_small_grid_alone() {
    let mut rng = Draws::new();
    let mut g = Grid::new(9, 40);
    g.set(1, 1, true);
    scatter(&mut g, &mut rng);
    assert_eq!(live_count(&g), 1);
    let mut g = Grid::new(40, 9);
    scatter(&mut g, &mut rng);
    assert_eq!(live_count(&g), 0);
}

#[test]
fn scatter_only_adds_cells() {
    let mut rng = Draws::new();
    let mut g = Grid::new(100, 60);
    g.set(0, 0, true);
    g.set(99, 59, true);
    scatter(&mut g, &mut rng);
    assert!(g.get(0, 0));
    assert!(g.get(99, 59));
    assert!(live_count(&g) > 2);
    assert_eq!((g.width(), g.height()), (100, 60));
}

#[test]
fn scatter_keeps_margin_from_far_edges() {
    let mut rng = Draws::new();
    for _ in 0..20 {
        let mut g = Grid::new(60, 50);
        scatter(&mut g, &mut rng);
        for y in 0..50 {
            for x in 0..60 {
                if g.get(x, y) {
                    assert!(x + 4 < 60 && y + 4 < 50);
                }
            }
        }
    }
}

/// Places catalog pattern `i` with a margin of two cells on every side.
fn framed(i: usize) -> Grid {
    let p = &catalog()[i];
    let mut g = Grid::new(p.w as usize + 4, p.h as usize + 4);
    for &(dx, dy) in &p.cells {
        g.set(dx as usize + 2, dy as usize + 2, true);
    }
    g
}

fn same_cells(a: &Grid, b: &Grid) -> bool {
    (0..a.height()).all(|y| (0..a.width()).all(|x| a.get(x, y) == b.get(x, y)))
}

#[test]
fn catalog_still_lifes_do_not_change() {
    for i in 0..5 {
        let g0 = framed(i);
        let mut g = framed(i);
        g.tick();
        assert!(same_cells(&g, &g0), "still life {} changed", i);
    }
}

#[test]
fn catalog_oscillators_repeat() {
    for (i, period) in [(5usize, 2usize), (6, 2), (7, 2), (8, 3)] {
        let g0 = framed(i);
        let mut g = framed(i);
        for step in 1..=period {
            g.tick();
            assert_eq!(same_cells(&g, &g0), step == period, "pattern {} at step {}", i, step);
        }
    }
}

#[test]
fn parse_accepts_long_art_of_short_lines() {
    let art = "O.\n".repeat(20000);
    let p = parse("column", &art, 1);
    assert_eq!(p.cells.len(), 20000);
    assert_eq!(p.cells[19999], (0, 19999));
    assert_eq!((p.w, p.h), (1, 20000));
}

#[test]
fn scatter_handles_sizes_that_stay_in_sixteen_bits() {
    assert!(scatter_handles(5, 100000));
    assert!(scatter_handles(100000, 9));
    assert!(scatter_handles(32767, 32767));
    assert!(!scatter_handles(32768, 20));
    assert!(!scatter_handles(20, 32768));
    assert!(!scatter_handles(20, 65552));
    assert!(scatter_handles(20, 65553));
    assert!(scatter_handles(20, 98303));
    assert!(!scatter_handles(20, 98304));
    assert!(scatter_handles(20, 131072 + 100));
    // 70000 read as a 16-bit number is 4464, room for every pattern that
    // fits ten rows.
    assert!(scatter_handles(70000, 10));
    assert!(!scatter_handles(65536 + 8, 12));
}

#[test]
fn scatter_on_a_very_tall_grid_draws_rows_from_its_sixteen_bit_height() {
    let mut rng = Draws::new();
    let mut g = Grid::new(12, 65600);
    scatter(&mut g, &mut rng);
    let mut live = 0;
    for y in 0..g.height() {
        for x in 0..g.width() {
            if g.get(x, y) {
                assert!(y + 4 < 64, "cell at row {}", y);
                assert!(x + 4 < 12);
                live += 1;
            }
        }
    }
    assert!(live > 0);
}

#[test]
fn scatter_on_a_very_wide_grid_draws_columns_from_its_sixteen_bit_width() {
    let mut draws = Draws::new();
    let mut g = Grid::new(65536 + 40, 12);
    scatter(&mut g, &mut draws);
    let mut live = 0;
    for y in 0..g.height() {
        for x in 0..g.width() {
            if g.get(x, y) {
                assert!(x + 4 < 40, "cell at column {}", x);
                live += 1;
            }
        }
    }
    assert!(live > 0);
}
