use tetrinet::{
    apply_gravity, can_move_down, can_move_left, can_move_right, lock_tetro, spawn_tetro,
    tetro_on_left_right_input, GravityOutcome, Grid, Tetro, TetroKind, TetroRot,
    DEFAULT_BLOCK_SZ, GRID_HEIGHT, GRID_WIDTH,
};

fn filled_count(grid: &Grid) -> usize {
    grid.grid.iter().map(|row| row.iter().filter(|c| **c).count()).sum()
}

#[test]
fn new_grid_is_empty_with_world_dimensions() {
    let grid = Grid::new();
    assert_eq!(filled_count(&grid), 0);
    assert_eq!(grid.grid.len(), GRID_HEIGHT);
    assert_eq!(grid.grid[0].len(), GRID_WIDTH);
    assert_eq!(grid.block_sz, DEFAULT_BLOCK_SZ);
    assert_eq!(grid.block_sz, 26);
    assert_eq!(grid.width_sz, 260);
    assert_eq!(grid.height_sz, 520);
}

#[test]
fn spawned_piece_is_a_t_at_the_top_middle() {
    let t = spawn_tetro();
    assert_eq!(t.coos, [(4, 0), (5, 0), (6, 0), (5, 1)]);
    assert_eq!(t.kind, TetroKind::T);
    assert_eq!(t.config, TetroRot::Base);
}

#[test]
fn spawned_piece_can_move_everywhere_on_an_empty_grid() {
    let grid = Grid::new();
    let t = spawn_tetro();
    assert!(can_move_down(&t, &grid));
    assert!(can_move_left(&t, &grid));
    assert!(can_move_right(&t, &grid));
}

#[test]
fn piece_falls_to_the_floor_then_locks() {
    let mut grid = Grid::new();
    let mut t = spawn_tetro();
    for step in 0..18 {
        assert_eq!(apply_gravity(&mut t, &mut grid), GravityOutcome::Fell, "step {}", step);
    }
    assert_eq!(t.coos, [(4, 18), (5, 18), (6, 18), (5, 19)]);
    assert!(!can_move_down(&t, &grid));
    assert_eq!(apply_gravity(&mut t, &mut grid), GravityOutcome::Locked);
    assert_eq!(t.coos, [(4, 18), (5, 18), (6, 18), (5, 19)]);
    assert_eq!(filled_count(&grid), 4);
    assert!(grid.grid[18][4] && grid.grid[18][5] && grid.grid[18][6] && grid.grid[19][5]);
}

#[test]
fn second_piece_lands_on_the_first() {
    let mut grid = Grid::new();
    let mut first = spawn_tetro();
    while apply_gravity(&mut first, &mut grid) == GravityOutcome::Fell {}
    let mut second = spawn_tetro();
    let mut falls = 0;
    while apply_gravity(&mut second, &mut grid) == GravityOutcome::Fell {
        falls += 1;
    }
    assert_eq!(falls, 16);
    assert_eq!(second.coos, [(4, 16), (5, 16), (6, 16), (5, 17)]);
    assert_eq!(filled_count(&grid), 8);
}

#[test]
fn left_arrow_stops_at_the_wall() {
    let grid = Grid::new();
    let mut t = spawn_tetro();
    for _ in 0..10 {
        tetro_on_left_right_input(&mut t, &grid, true, false);
    }
    assert_eq!(t.coos, [(0, 0), (1, 0), (2, 0), (1, 1)]);
    assert!(!can_move_left(&t, &grid));
}

#[test]
fn right_arrow_stops_at_the_wall() {
    let grid = Grid::new();
    let mut t = spawn_tetro();
    for _ in 0..10 {
        tetro_on_left_right_input(&mut t, &grid, false, true);
    }
    assert_eq!(t.coos, [(7, 0), (8, 0), (9, 0), (8, 1)]);
    assert!(!can_move_right(&t, &grid));
}

#[test]
fn left_move_is_undone_by_right_move() {
    let grid = Grid::new();
    let start = spawn_tetro();
    let mut t = start;
    tetro_on_left_right_input(&mut t, &grid, true, false);
    assert_eq!(t.coos, [(3, 0), (4, 0), (5, 0), (4, 1)]);
    tetro_on_left_right_input(&mut t, &grid, false, true);
    assert_eq!(t.coos, start.coos);
}

#[test]
fn both_arrows_in_one_frame_cancel() {
    let grid = Grid::new();
    let start = spawn_tetro();
    let mut t = start;
    tetro_on_left_right_input(&mut t, &grid, true, true);
    assert_eq!(t.coos, start.coos);
}

#[test]
fn both_arrows_at_the_left_wall_move_right() {
    let grid = Grid::new();
    let mut t = Tetro { coos: [(0, 5), (1, 5), (2, 5), (1, 6)], kind: TetroKind::T, config: TetroRot::Base };
    tetro_on_left_right_input(&mut t, &grid, true, true);
    assert_eq!(t.coos, [(1, 5), (2, 5), (3, 5), (2, 6)]);
}

#[test]
fn locked_block_stops_sideways_and_downward_moves() {
    let mut grid = Grid::new();
    grid.grid[0][3] = true;
    grid.grid[2][5] = true;
    let mut t = spawn_tetro();
    assert!(!can_move_left(&t, &grid));
    assert!(can_move_right(&t, &grid));
    assert!(!can_move_down(&t, &grid));
    tetro_on_left_right_input(&mut t, &grid, true, false);
    assert_eq!(t.coos, [(4, 0), (5, 0), (6, 0), (5, 1)]);
    assert_eq!(apply_gravity(&mut t, &mut grid), GravityOutcome::Locked);
    assert_eq!(filled_count(&grid), 6);
}

#[test]
fn lock_fills_exactly_the_piece_cells() {
    let mut grid = Grid::new();
    grid.grid[19][0] = true;
    let t = Tetro { coos: [(0, 19), (1, 19), (2, 19), (1, 18)], kind: TetroKind::T, config: TetroRot::R2 };
    lock_tetro(&mut grid, &t);
    assert_eq!(filled_count(&grid), 4);
    assert!(grid.grid[19][0] && grid.grid[19][1] && grid.grid[19][2] && grid.grid[18][1]);
    assert_eq!(grid.block_sz, 26);
}
