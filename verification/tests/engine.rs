use game_of_life::cell::{count_living_cells, Cell, CellState};
use game_of_life::controller::Controller;
use game_of_life::grid::Grid;
use game_of_life::schedule::TickScheduler;

fn living_cells(grid: &Grid) -> Vec<(usize, usize)> {
    let mut alive = Vec::new();
    for row in 0..grid.rows() {
        for col in 0..grid.cols() {
            if grid.cell_at(row, col).living() {
                alive.push((row, col));
            }
        }
    }
    alive
}

#[test]
fn cell_living_states() {
    let alive = Cell { state: CellState::Alive };
    let dead = Cell { state: CellState::Dead };
    assert!(alive.living());
    assert!(!dead.living());
}

#[test]
fn new_grid_is_all_dead() {
    let grid = Grid::new(3, 5);
    assert_eq!(grid.rows(), 3);
    assert_eq!(grid.cols(), 5);
    assert!(living_cells(&grid).is_empty());
}

#[test]
fn set_cell_at_changes_only_that_cell() {
    let mut grid = Grid::new(4, 4);
    grid.set_cell_at(1, 2, CellState::Alive);
    assert_eq!(living_cells(&grid), vec![(1, 2)]);
    assert_eq!(grid.cell_at(1, 2).state, CellState::Alive);
    grid.set_cell_at(1, 2, CellState::Dead);
    assert!(living_cells(&grid).is_empty());
}

#[test]
fn kill_all_clears_every_cell() {
    let mut grid = Grid::new(3, 3);
    for row in 0..3 {
        for col in 0..3 {
            grid.set_cell_at(row, col, CellState::Alive);
        }
    }
    grid.kill_all();
    assert!(living_cells(&grid).is_empty());
}

#[test]
fn neighbour_counts_corner_edge_interior() {
    let grid = Grid::new(3, 3);
    let mut neighbours = Vec::new();

    grid.cell_neighbours_at(0, 0, &mut neighbours);
    assert_eq!(neighbours.len(), 3);
    grid.cell_neighbours_at(0, 2, &mut neighbours);
    assert_eq!(neighbours.len(), 3);
    grid.cell_neighbours_at(2, 0, &mut neighbours);
    assert_eq!(neighbours.len(), 3);
    grid.cell_neighbours_at(2, 2, &mut neighbours);
    assert_eq!(neighbours.len(), 3);

    grid.cell_neighbours_at(0, 1, &mut neighbours);
    assert_eq!(neighbours.len(), 5);
    grid.cell_neighbours_at(1, 0, &mut neighbours);
    assert_eq!(neighbours.len(), 5);
    grid.cell_neighbours_at(1, 2, &mut neighbours);
    assert_eq!(neighbours.len(), 5);
    grid.cell_neighbours_at(2, 1, &mut neighbours);
    assert_eq!(neighbours.len(), 5);

    grid.cell_neighbours_at(1, 1, &mut neighbours);
    assert_eq!(neighbours.len(), 8);
}

#[test]
fn neighbours_exclude_the_cell_itself() {
    let mut grid = Grid::new(3, 3);
    for row in 0..3 {
        for col in 0..3 {
            grid.set_cell_at(row, col, CellState::Alive);
        }
    }
    // the centre cell is alive too; its 8 neighbours are all alive, and
    // the count stays 8 because the cell itself is not among them
    let mut neighbours = Vec::new();
    grid.cell_neighbours_at(1, 1, &mut neighbours);
    assert_eq!(neighbours.len(), 8);
    assert_eq!(count_living_cells(&neighbours), 8);
}

#[test]
fn iterate_visits_every_cell_once_in_row_major_order() {
    let mut grid = Grid::new(3, 4);
    grid.set_cell_at(2, 3, CellState::Alive);
    let mut it = grid.iter();
    let mut seen: Vec<(usize, usize, Cell)> = Vec::new();
    while let Some(item) = it.next() {
        seen.push(item);
    }
    assert_eq!(seen.len(), 12);
    for (k, (row, col, cell)) in seen.iter().enumerate() {
        assert_eq!((*row, *col), (k / 4, k % 4));
        assert_eq!(cell.living(), (*row, *col) == (2, 3));
    }
    // every pair is distinct, so the 12 pairs cover the whole index space
    for i in 0..seen.len() {
        for j in (i + 1)..seen.len() {
            assert_ne!((seen[i].0, seen[i].1), (seen[j].0, seen[j].1));
        }
    }
    // a fresh traversal starts over
    let mut again = grid.iter();
    assert_eq!(again.next().map(|(r, c, _)| (r, c)), Some((0, 0)));
}

#[test]
fn step_on_all_dead_grid_stays_all_dead() {
    let mut controller = Controller::new(4, 4, 1);
    let mut grid = Grid::new(4, 4);
    controller.unpause();
    controller.generate(&mut grid);
    assert!(living_cells(&grid).is_empty());
}

#[test]
fn lone_corner_cell_has_no_neighbours_and_dies() {
    let mut controller = Controller::new(3, 3, 1);
    let mut grid = Grid::new(3, 3);
    grid.set_cell_at(0, 0, CellState::Alive);

    // no wraparound: the corner cell's 3 neighbours are all dead
    let mut neighbours = Vec::new();
    grid.cell_neighbours_at(0, 0, &mut neighbours);
    assert_eq!(count_living_cells(&neighbours), 0);

    controller.unpause();
    controller.generate(&mut grid);
    assert!(living_cells(&grid).is_empty());
}

#[test]
fn blinker_oscillates() {
    let mut controller = Controller::new(3, 3, 1);
    let mut grid = Grid::new(3, 3);
    grid.set_cell_at(0, 1, CellState::Alive);
    grid.set_cell_at(1, 1, CellState::Alive);
    grid.set_cell_at(2, 1, CellState::Alive);
    controller.unpause();

    controller.generate(&mut grid);
    assert_eq!(living_cells(&grid), vec![(1, 0), (1, 1), (1, 2)]);

    controller.generate(&mut grid);
    assert_eq!(living_cells(&grid), vec![(0, 1), (1, 1), (2, 1)]);
}

#[test]
fn generate_while_paused_leaves_the_grid_unchanged() {
    let mut controller = Controller::new(3, 3, 1);
    let mut grid = Grid::new(3, 3);
    grid.set_cell_at(0, 1, CellState::Alive);
    grid.set_cell_at(1, 1, CellState::Alive);
    grid.set_cell_at(2, 1, CellState::Alive);
    assert!(controller.paused());
    controller.generate(&mut grid);
    assert_eq!(living_cells(&grid), vec![(0, 1), (1, 1), (2, 1)]);
}

#[test]
fn pause_and_unpause_toggle() {
    let mut controller = Controller::new(2, 2, 1);
    assert!(controller.paused());
    controller.unpause();
    assert!(!controller.paused());
    controller.pause();
    assert!(controller.paused());
}

#[test]
fn initialise_game_seeds_three_cells() {
    let mut controller = Controller::new(5, 6, 1);
    let grid = controller.initialise_game();
    assert_eq!(grid.rows(), 5);
    assert_eq!(grid.cols(), 6);
    assert_eq!(living_cells(&grid), vec![(2, 2), (2, 3), (2, 4)]);
}

#[test]
fn render_single_living_cell() {
    let mut controller = Controller::new(2, 2, 10);
    let mut grid = Grid::new(2, 2);
    grid.set_cell_at(0, 0, CellState::Alive);
    controller.display(&grid);

    let frame = controller.frame();
    let width = 2 * 10;
    let height = 2 * 10;
    assert_eq!(frame.len(), width * height * 4);
    for py in 0..height {
        for px in 0..width {
            let base = (py * width + px) * 4;
            let pixel = [frame[base], frame[base + 1], frame[base + 2], frame[base + 3]];
            if py < 10 && px < 10 {
                // the 10x10 block over the living cell: solid opaque red
                assert_eq!(pixel, [255, 0, 0, 255]);
            } else {
                // everywhere else: the opaque black background
                assert_eq!(pixel, [0, 0, 0, 255]);
            }
        }
    }
}

#[test]
fn manual_edit_maps_pixels_to_cells() {
    let controller = Controller::new(4, 4, 10);
    let mut grid = Grid::new(4, 4);
    controller.manual_set(&mut grid, 15, 25);
    assert_eq!(living_cells(&grid), vec![(2, 1)]);
    controller.manual_unset(&mut grid, 15, 25);
    assert!(living_cells(&grid).is_empty());
}

#[test]
fn scheduler_divides_the_base_tick_rate() {
    let mut scheduler = TickScheduler::new(3, 2);
    let mut results = Vec::new();
    for _ in 0..6 {
        results.push(scheduler.tick());
    }
    assert_eq!(
        results,
        vec![
            (true, true),
            (false, false),
            (false, true),
            (true, false),
            (false, true),
            (false, false),
        ]
    );
}
