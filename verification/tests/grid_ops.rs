use game_of_life::App;
use game_of_life::Cellule;
use game_of_life::Msg;
use game_of_life::wrap;

fn idx(width: usize, row: usize, col: usize) -> usize {
    row * width + col
}

#[test]
fn wrap_keeps_in_range_coordinates() {
    assert_eq!(wrap(0, 5), 0);
    assert_eq!(wrap(3, 5), 3);
    assert_eq!(wrap(4, 5), 4);
}

#[test]
fn wrap_sends_negative_one_to_last() {
    assert_eq!(wrap(-1, 5), 4);
    assert_eq!(wrap(-1, 1), 0);
}

#[test]
fn wrap_sends_range_to_zero() {
    assert_eq!(wrap(5, 5), 0);
    assert_eq!(wrap(7, 5), 2);
}

#[test]
fn new_grid_is_all_dead() {
    let g = App::new(6, 4);
    assert_eq!(g.cellules_width, 6);
    assert_eq!(g.cellules_height, 4);
    assert!(!g.active);
    assert_eq!(g.cellules.len(), 24);
    for i in 0..24 {
        assert_eq!(g.get(i), Cellule::Dead);
    }
}

#[test]
fn row_col_as_idx_wraps_one_step() {
    let g = App::new(5, 4);
    assert_eq!(g.row_col_as_idx(2, 3), 13);
    // one step off each edge lands on the opposite edge
    assert_eq!(g.row_col_as_idx(-1, 0), idx(5, 3, 0));
    assert_eq!(g.row_col_as_idx(4, 0), idx(5, 0, 0));
    assert_eq!(g.row_col_as_idx(0, -1), idx(5, 0, 4));
    assert_eq!(g.row_col_as_idx(0, 5), idx(5, 0, 0));
    // the opposite corner is one diagonal step from (0, 0)
    assert_eq!(g.row_col_as_idx(-1, -1), idx(5, 3, 4));
}

#[test]
fn toggle_cell_twice_restores_state() {
    let mut g = App::new(5, 5);
    g.toggle_cell(7);
    assert_eq!(g.get(7), Cellule::Alive);
    g.toggle_cell(7);
    assert_eq!(g.get(7), Cellule::Dead);
    for i in 0..25 {
        assert_eq!(g.get(i), Cellule::Dead);
    }
}

#[test]
fn set_and_get_roundtrip() {
    let mut g = App::new(3, 3);
    g.set(5, Cellule::Alive);
    assert_eq!(g.get(5), Cellule::Alive);
    g.set(5, Cellule::Dead);
    assert_eq!(g.get(5), Cellule::Dead);
}

#[test]
fn reset_clears_and_is_idempotent() {
    let mut g = App::new(4, 4);
    g.toggle_cell(0);
    g.toggle_cell(9);
    g.reset();
    let after_once: Vec<Cellule> = g.cellules.clone();
    g.reset();
    assert_eq!(g.cellules, after_once);
    for i in 0..16 {
        assert_eq!(g.get(i), Cellule::Dead);
    }
}

#[test]
fn randomize_from_follows_supplied_bits() {
    let mut g = App::new(4, 2);
    let bits = vec![true, false, false, true, true, true, false, false];
    g.randomize_from(&bits);
    for i in 0..8 {
        assert_eq!(g.get(i) == Cellule::Alive, bits[i]);
    }
    // a second draw is independent of the old states: all-false clears the
    // board, a scripted pattern reproduces exactly
    g.randomize_from(&vec![false; 8]);
    for i in 0..8 {
        assert_eq!(g.get(i), Cellule::Dead);
    }
    let pattern = vec![false, true, false, true, false, true, false, true];
    g.randomize_from(&pattern);
    for i in 0..8 {
        assert_eq!(g.get(i) == Cellule::Alive, pattern[i]);
    }
}

#[test]
fn random_mutate_keeps_dimensions() {
    let mut g = App::new(7, 3);
    g.random_mutate();
    assert_eq!(g.cellules_width, 7);
    assert_eq!(g.cellules_height, 3);
    assert_eq!(g.cellules.len(), 21);
    g.reset();
    for i in 0..21 {
        assert_eq!(g.get(i), Cellule::Dead);
    }
}

#[test]
fn neighbors_come_in_fixed_order() {
    // number the cells of a 5x5 grid so that each holds a distinct state
    // pattern around (2, 2): only (3, 2), (1, 3) and (2, 1) are alive.
    let mut g = App::new(5, 5);
    g.toggle_cell(idx(5, 3, 2));
    g.toggle_cell(idx(5, 1, 3));
    g.toggle_cell(idx(5, 2, 1));
    let n = g.neighbors(2, 2);
    // order: (r+1,c), (r+1,c+1), (r+1,c-1), (r-1,c), (r-1,c+1), (r-1,c-1),
    //        (r,c-1), (r,c+1)
    assert_eq!(
        n,
        [
            Cellule::Alive,  // (3, 2)
            Cellule::Dead,   // (3, 3)
            Cellule::Dead,   // (3, 1)
            Cellule::Dead,   // (1, 2)
            Cellule::Alive,  // (1, 3)
            Cellule::Dead,   // (1, 1)
            Cellule::Alive,  // (2, 1)
            Cellule::Dead,   // (2, 3)
        ]
    );
}

#[test]
fn neighbors_wrap_around_corner() {
    // a live cell in the opposite corner is a diagonal neighbor of (0, 0)
    let mut g = App::new(4, 3);
    g.toggle_cell(idx(4, 2, 3));
    let n = g.neighbors(0, 0);
    // (r-1, c-1) wraps to (2, 3): the sixth entry of the fixed order
    assert_eq!(n[5], Cellule::Alive);
    assert_eq!(n.iter().filter(|c| **c == Cellule::Alive).count(), 1);
}

#[test]
fn classification_thresholds() {
    let dead = Cellule::Dead;
    let alive = Cellule::Alive;
    let one = [alive, dead, dead, dead, dead, dead, dead, dead];
    let two = [alive, alive, dead, dead, dead, dead, dead, dead];
    let three = [alive, alive, alive, dead, dead, dead, dead, dead];
    let four = [alive, alive, alive, alive, dead, dead, dead, dead];
    assert!(Cellule::alone(&one));
    assert!(!Cellule::alone(&two));
    assert!(!Cellule::overpopulated(&three));
    assert!(Cellule::overpopulated(&four));
    assert!(Cellule::can_be_revived(&three));
    assert!(!Cellule::can_be_revived(&two));
    assert!(!Cellule::can_be_revived(&four));
    assert_eq!(Cellule::count_alive(&four), 4);
}

#[test]
fn update_handles_every_message() {
    let mut g = App::new(5, 5);
    assert!(g.update(Msg::Start));
    assert!(g.active);
    assert!(g.update(Msg::Stop));
    assert!(!g.active);
    assert!(g.update(Msg::ToggleCellule(3)));
    assert_eq!(g.get(3), Cellule::Alive);
    assert!(g.update(Msg::Reset));
    assert_eq!(g.get(3), Cellule::Dead);
    assert!(g.update(Msg::Random));
    assert!(g.update(Msg::Step));
    assert_eq!(g.cellules.len(), 25);
}

#[test]
fn tick_steps_only_while_active() {
    let mut g = App::new(5, 5);
    // a single live cell: an inactive tick must not touch it
    g.toggle_cell(12);
    assert!(!g.update(Msg::Tick));
    assert_eq!(g.get(12), Cellule::Alive);
    // an active tick advances the generation, so the lone cell dies
    g.update(Msg::Start);
    assert!(g.update(Msg::Tick));
    assert_eq!(g.get(12), Cellule::Dead);
}
