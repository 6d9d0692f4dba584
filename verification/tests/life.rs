use life::cell::Cell;
use life::dispatch::Msg;
use life::grid::{wrap, App};

fn grid_with(width: usize, height: usize, live: &[(usize, usize)]) -> App {
    let mut g = App::new(width, height);
    for &(row, col) in live {
        g.toggle_cell(row * width + col);
    }
    g
}

fn live_positions(g: &App) -> Vec<(usize, usize)> {
    let mut out = Vec::new();
    for row in 0..g.cells_height {
        for col in 0..g.cells_width {
            if g.cells[row * g.cells_width + col].is_alive() {
                out.push((row, col));
            }
        }
    }
    out
}

fn cell_row(states: &[bool]) -> [Cell; 8] {
    let mut cells = [Cell::new_dead(); 8];
    for (i, &alive) in states.iter().enumerate() {
        if alive {
            cells[i].set_alive();
        }
    }
    cells
}

#[test]
fn wrap_in_range_is_identity() {
    assert_eq!(wrap(0, 5), 0);
    assert_eq!(wrap(3, 5), 3);
    assert_eq!(wrap(4, 5), 4);
}

#[test]
fn wrap_normalizes_one_step_out_of_range() {
    assert_eq!(wrap(-1, 5), 4);
    assert_eq!(wrap(-5, 5), 0);
    assert_eq!(wrap(5, 5), 0);
    assert_eq!(wrap(9, 5), 4);
}

#[test]
fn idx_wraps_toroidally() {
    let g = App::new(3, 3);
    // one wrap step in either direction lands on the same cell
    assert_eq!(g.row_col_as_idx(-1, -1), g.row_col_as_idx(2, 2));
    assert_eq!(g.row_col_as_idx(3, 0), g.row_col_as_idx(0, 0));
    assert_eq!(g.row_col_as_idx(0, 3), g.row_col_as_idx(0, 0));
    assert_eq!(g.row_col_as_idx(1, 1), 4);
    assert_eq!(g.row_col_as_idx(2, 2), 8);
}

#[test]
fn cell_starts_dead_and_mutates() {
    let mut c = Cell::new_dead();
    assert!(!c.is_alive());
    c.set_alive();
    assert!(c.is_alive());
    c.set_alive();
    assert!(c.is_alive());
    c.set_dead();
    assert!(!c.is_alive());
    c.toggle();
    assert!(c.is_alive());
    c.toggle();
    assert!(!c.is_alive());
}

#[test]
fn classification_thresholds() {
    let zero = cell_row(&[false; 8]);
    let one = cell_row(&[true, false, false, false, false, false, false, false]);
    let two = cell_row(&[true, true, false, false, false, false, false, false]);
    let three = cell_row(&[true, false, true, false, true, false, false, false]);
    let four = cell_row(&[true, true, true, true, false, false, false, false]);
    let eight = cell_row(&[true; 8]);

    assert!(Cell::alone(&zero));
    assert!(Cell::alone(&one));
    assert!(!Cell::alone(&two));
    assert!(!Cell::alone(&three));

    assert!(!Cell::overpopulated(&three));
    assert!(Cell::overpopulated(&four));
    assert!(Cell::overpopulated(&eight));

    assert!(!Cell::can_be_revived(&two));
    assert!(Cell::can_be_revived(&three));
    assert!(!Cell::can_be_revived(&four));
}

#[test]
fn new_grid_is_paused_and_dead() {
    let g = App::new(53, 40);
    assert!(!g.active);
    assert_eq!(g.cells_width, 53);
    assert_eq!(g.cells_height, 40);
    assert_eq!(g.cells.len(), 53 * 40);
    assert!(g.cells.iter().all(|c| !c.is_alive()));
}

#[test]
fn reset_kills_everything() {
    let mut g = App::new(10, 10);
    g.random_mutate();
    g.update(Msg::Start);
    g.reset();
    assert!(g.cells.iter().all(|c| !c.is_alive()));
    // reset leaves the run state alone
    assert!(g.active);
}

#[test]
fn random_mutate_keeps_shape() {
    let mut g = App::new(7, 5);
    g.random_mutate();
    assert_eq!(g.cells_width, 7);
    assert_eq!(g.cells_height, 5);
    assert_eq!(g.cells.len(), 35);
    assert!(!g.active);
}

#[test]
fn toggle_twice_restores_grid() {
    let mut g = grid_with(4, 4, &[(0, 0), (1, 2), (3, 3)]);
    let before = g.cells.clone();
    g.toggle_cell(6);
    assert!(g.cells[6].is_alive() != before[6].is_alive());
    for i in 0..before.len() {
        if i != 6 {
            assert_eq!(g.cells[i], before[i]);
        }
    }
    g.toggle_cell(6);
    assert_eq!(g.cells, before);
}

#[test]
fn step_on_dead_grid_stays_dead() {
    let mut g = App::new(6, 4);
    g.step();
    assert!(g.cells.iter().all(|c| !c.is_alive()));
}

#[test]
fn lone_cell_neighbor_counts_wrap() {
    // 3x3 torus with only the center alive: every other cell sees the
    // center exactly once; the center sees no live neighbor.
    let g = grid_with(3, 3, &[(1, 1)]);
    for row in 0..3 {
        for col in 0..3 {
            let nb = g.neighbors(row as isize, col as isize);
            let live = nb.iter().filter(|c| c.is_alive()).count();
            if (row, col) == (1, 1) {
                assert_eq!(live, 0);
            } else {
                assert_eq!(live, 1);
            }
        }
    }
}

#[test]
fn lone_cell_dies() {
    let mut g = grid_with(3, 3, &[(1, 1)]);
    g.step();
    assert!(g.cells.iter().all(|c| !c.is_alive()));
}

#[test]
fn blinker_oscillates_with_period_two() {
    let mut g = grid_with(5, 5, &[(2, 1), (2, 2), (2, 3)]);
    g.step();
    assert_eq!(live_positions(&g), vec![(1, 2), (2, 2), (3, 2)]);
    g.step();
    assert_eq!(live_positions(&g), vec![(2, 1), (2, 2), (2, 3)]);
}

#[test]
fn block_is_a_still_life() {
    // every live cell has exactly 3 live neighbors and survives;
    // no dead cell reaches 3
    let mut g = grid_with(5, 5, &[(1, 1), (1, 2), (2, 1), (2, 2)]);
    g.step();
    assert_eq!(live_positions(&g), vec![(1, 1), (1, 2), (2, 1), (2, 2)]);
}

#[test]
fn start_and_stop_move_only_the_flag() {
    let mut g = grid_with(4, 4, &[(2, 2)]);
    let before = g.cells.clone();
    assert!(!g.update(Msg::Start));
    assert!(g.active);
    assert_eq!(g.cells, before);
    assert!(!g.update(Msg::Start));
    assert!(g.active);
    assert!(!g.update(Msg::Stop));
    assert!(!g.active);
    assert_eq!(g.cells, before);
}

#[test]
fn tick_while_paused_changes_nothing() {
    let mut g = grid_with(5, 5, &[(2, 1), (2, 2), (2, 3)]);
    let before = g.cells.clone();
    assert!(!g.update(Msg::Tick));
    assert_eq!(g.cells, before);
    assert!(!g.active);
}

#[test]
fn tick_while_running_is_one_step() {
    let mut ticked = grid_with(5, 5, &[(2, 1), (2, 2), (2, 3)]);
    let mut stepped = grid_with(5, 5, &[(2, 1), (2, 2), (2, 3)]);
    ticked.update(Msg::Start);
    assert!(ticked.update(Msg::Tick));
    assert!(stepped.update(Msg::Step));
    assert_eq!(ticked.cells, stepped.cells);
}

#[test]
fn step_command_works_while_paused() {
    let mut g = grid_with(5, 5, &[(2, 1), (2, 2), (2, 3)]);
    assert!(!g.active);
    assert!(g.update(Msg::Step));
    assert!(!g.active);
    assert_eq!(live_positions(&g), vec![(1, 2), (2, 2), (3, 2)]);
}

#[test]
fn toggle_command_reports_change() {
    let mut g = App::new(4, 4);
    assert!(g.update(Msg::ToggleCell(5)));
    assert!(g.cells[5].is_alive());
    assert!(g.update(Msg::ToggleCell(5)));
    assert!(!g.cells[5].is_alive());
}

#[test]
fn random_command_reports_change() {
    let mut g = App::new(4, 4);
    assert!(g.update(Msg::Random));
    assert_eq!(g.cells.len(), 16);
}

#[test]
fn reset_command_reports_change() {
    let mut g = grid_with(4, 4, &[(0, 1), (3, 2)]);
    assert!(g.update(Msg::Reset));
    assert!(g.cells.iter().all(|c| !c.is_alive()));
}
