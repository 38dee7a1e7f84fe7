use game_of_life::App;
use game_of_life::Cellule;

fn idx(width: usize, row: usize, col: usize) -> usize {
    row * width + col
}

fn live_set(g: &App) -> Vec<usize> {
    (0..g.cellules.len()).filter(|i| g.get(*i) == Cellule::Alive).collect()
}

#[test]
fn dead_grid_stays_dead() {
    let mut g = App::new(8, 6);
    g.step();
    assert!(live_set(&g).is_empty());
    g.step();
    assert!(live_set(&g).is_empty());
}

#[test]
fn lone_cell_dies_of_underpopulation() {
    let mut g = App::new(5, 5);
    g.toggle_cell(idx(5, 2, 2));
    g.step();
    assert!(live_set(&g).is_empty());
}

#[test]
fn block_is_a_still_life() {
    let mut g = App::new(4, 4);
    let block = vec![idx(4, 1, 1), idx(4, 1, 2), idx(4, 2, 1), idx(4, 2, 2)];
    for i in &block {
        g.toggle_cell(*i);
    }
    for _ in 0..5 {
        g.step();
        assert_eq!(live_set(&g), block);
    }
}

#[test]
fn blinker_oscillates_with_period_two() {
    let mut g = App::new(5, 5);
    let horizontal = vec![idx(5, 2, 1), idx(5, 2, 2), idx(5, 2, 3)];
    let vertical = vec![idx(5, 1, 2), idx(5, 2, 2), idx(5, 3, 2)];
    for i in &horizontal {
        g.toggle_cell(*i);
    }
    g.step();
    assert_eq!(live_set(&g), vertical);
    g.step();
    assert_eq!(live_set(&g), horizontal);
}

#[test]
fn survival_with_two_or_three_neighbors() {
    // a vertical blinker's center has two live neighbors and survives
    let mut g = App::new(5, 5);
    for i in [idx(5, 1, 2), idx(5, 2, 2), idx(5, 3, 2)] {
        g.toggle_cell(i);
    }
    g.step();
    assert_eq!(g.get(idx(5, 2, 2)), Cellule::Alive);
    // each corner of a block has three live neighbors and survives
    let mut b = App::new(5, 5);
    for i in [idx(5, 1, 1), idx(5, 1, 2), idx(5, 2, 1), idx(5, 2, 2)] {
        b.toggle_cell(i);
    }
    b.step();
    assert_eq!(b.get(idx(5, 1, 1)), Cellule::Alive);
}

#[test]
fn overpopulated_cell_dies() {
    // a plus sign: the center has four live neighbors and dies
    let mut g = App::new(5, 5);
    let center = idx(5, 2, 2);
    for i in [center, idx(5, 1, 2), idx(5, 3, 2), idx(5, 2, 1), idx(5, 2, 3)] {
        g.toggle_cell(i);
    }
    g.step();
    assert_eq!(g.get(center), Cellule::Dead);
}

#[test]
fn birth_needs_exactly_three_neighbors() {
    // the horizontal blinker gives the cells above and below its center
    // exactly three neighbors: they are born; the diagonal corners see two
    // and stay dead.
    let mut g = App::new(5, 5);
    for i in [idx(5, 2, 1), idx(5, 2, 2), idx(5, 2, 3)] {
        g.toggle_cell(i);
    }
    g.step();
    assert_eq!(g.get(idx(5, 1, 2)), Cellule::Alive);
    assert_eq!(g.get(idx(5, 3, 2)), Cellule::Alive);
    assert_eq!(g.get(idx(5, 1, 1)), Cellule::Dead);
    assert_eq!(g.get(idx(5, 3, 3)), Cellule::Dead);
}

#[test]
fn toroidal_wrap_joins_opposite_edges() {
    // a horizontal triple across the left edge of row 0: cells (0,4), (0,0),
    // (0,1) on a 5x5 grid; it behaves as a blinker through the wrap.
    let mut g = App::new(5, 5);
    for i in [idx(5, 0, 4), idx(5, 0, 0), idx(5, 0, 1)] {
        g.toggle_cell(i);
    }
    g.step();
    assert_eq!(live_set(&g), vec![idx(5, 0, 0), idx(5, 1, 0), idx(5, 4, 0)]);
    g.step();
    assert_eq!(live_set(&g), vec![idx(5, 0, 0), idx(5, 0, 1), idx(5, 0, 4)]);
}

#[test]
fn corner_counts_opposite_corner_as_neighbor() {
    // only (0,0) and the far corner (H-1, W-1) are alive: each sees the
    // other diagonally through the wrap, so each has exactly one neighbor
    // and both die of underpopulation.
    let mut g = App::new(6, 4);
    g.toggle_cell(idx(6, 0, 0));
    g.toggle_cell(idx(6, 3, 5));
    let n = g.neighbors(0, 0);
    assert_eq!(n.iter().filter(|c| **c == Cellule::Alive).count(), 1);
    g.step();
    assert!(live_set(&g).is_empty());
}
