use rustsweeper::{CellMap, GridError};

/// The state of every cell, row by row: hidden, trap, flagged, count.
fn cells_of(grid: &mut CellMap) -> Vec<(bool, bool, bool, u8)> {
    let (width, height) = grid.get_dimensions();
    let mut cells = Vec::new();
    for y in 0..height {
        for x in 0..width {
            let cell = grid.get_cell(x as i32, y as i32).unwrap();
            cells.push((
                cell.is_hidden(),
                cell.is_trap(),
                cell.is_flagged(),
                cell.get_adjacent_trap_count(),
            ));
        }
    }
    cells
}

/// The number of traps around `(x, y)`, counted anew from the traps themselves.
fn traps_around(
    cells: &[(bool, bool, bool, u8)],
    width: usize,
    height: usize,
    x: usize,
    y: usize,
) -> u8 {
    let mut count = 0;
    for dy in -1i64..=1 {
        for dx in -1i64..=1 {
            if dx == 0 && dy == 0 {
                continue;
            }
            let nx = x as i64 + dx;
            let ny = y as i64 + dy;
            if nx >= 0 && ny >= 0 && (nx as usize) < width && (ny as usize) < height {
                if cells[ny as usize * width + nx as usize].1 {
                    count += 1;
                }
            }
        }
    }
    count
}

fn assert_counts_right(grid: &mut CellMap) {
    let (width, height) = grid.get_dimensions();
    let cells = cells_of(grid);
    for y in 0..height {
        for x in 0..width {
            assert_eq!(cells[y * width + x].3, traps_around(&cells, width, height, x, y));
        }
    }
}

#[test]
fn picks_place_traps_by_rank_among_free_cells() {
    let mut grid = CellMap::new(5, 5, 2).unwrap();
    assert_eq!(grid.generate_with(0, 0, &vec![3, 16]), Ok(()));
    let cells = cells_of(&mut grid);
    let traps: Vec<usize> = (0..25).filter(|i| cells[*i].1).collect();
    assert_eq!(traps, vec![4, 18]);
    let counts: Vec<u8> = cells.iter().map(|c| c.3).collect();
    assert_eq!(
        counts,
        vec![
            0, 0, 0, 1, 0, //
            0, 0, 0, 1, 1, //
            0, 0, 1, 1, 1, //
            0, 0, 1, 0, 1, //
            0, 0, 1, 1, 1,
        ]
    );
    for cell in cells {
        assert!(cell.0);
        assert!(!cell.2);
    }
}

#[test]
fn rank_zero_twice_takes_the_first_two_free_cells() {
    let mut grid = CellMap::new(3, 3, 2).unwrap();
    assert_eq!(grid.generate_with(1, 1, &vec![0, 0]), Ok(()));
    let cells = cells_of(&mut grid);
    let traps: Vec<bool> = cells.iter().map(|c| c.1).collect();
    assert_eq!(traps, vec![true, true, false, false, false, false, false, false, false]);
    let counts: Vec<u8> = cells.iter().map(|c| c.3).collect();
    assert_eq!(counts, vec![1, 1, 1, 2, 2, 1, 0, 0, 0]);
}

#[test]
fn the_safe_cell_is_skipped_in_the_ranking() {
    let mut grid = CellMap::new(3, 1, 1).unwrap();
    assert_eq!(grid.generate_with(0, 0, &vec![0]), Ok(()));
    let traps: Vec<bool> = cells_of(&mut grid).iter().map(|c| c.1).collect();
    assert_eq!(traps, vec![false, true, false]);

    let mut grid = CellMap::new(3, 1, 1).unwrap();
    assert_eq!(grid.generate_with(1, 0, &vec![1]), Ok(()));
    let traps: Vec<bool> = cells_of(&mut grid).iter().map(|c| c.1).collect();
    assert_eq!(traps, vec![false, false, true]);
}

#[test]
fn rows_are_decoded_by_width_on_a_wide_grid() {
    let mut grid = CellMap::new(4, 2, 1).unwrap();
    assert_eq!(grid.generate_with(0, 0, &vec![5]), Ok(()));
    assert!(grid.get_cell(2, 1).unwrap().is_trap());
    let counts: Vec<u8> = cells_of(&mut grid).iter().map(|c| c.3).collect();
    assert_eq!(counts, vec![0, 1, 1, 1, 0, 1, 0, 1]);
}

#[test]
fn rows_are_decoded_by_width_on_a_tall_grid() {
    let mut grid = CellMap::new(2, 4, 1).unwrap();
    assert_eq!(grid.generate_with(0, 0, &vec![4]), Ok(()));
    assert!(grid.get_cell(1, 2).unwrap().is_trap());
    let counts: Vec<u8> = cells_of(&mut grid).iter().map(|c| c.3).collect();
    assert_eq!(counts, vec![0, 0, 1, 1, 1, 0, 1, 1]);
}

#[test]
fn a_safe_cell_outside_the_grid_protects_nothing() {
    let mut grid = CellMap::new(2, 2, 3).unwrap();
    assert_eq!(grid.generate_with(-1, -1, &vec![0, 0, 1]), Ok(()));
    let traps: Vec<bool> = cells_of(&mut grid).iter().map(|c| c.1).collect();
    assert_eq!(traps, vec![true, true, false, true]);
}

#[test]
fn a_full_ring_counts_eight() {
    let mut grid = CellMap::new(3, 3, 8).unwrap();
    assert_eq!(grid.generate_with(1, 1, &vec![0; 8]), Ok(()));
    let cells = cells_of(&mut grid);
    assert_eq!(cells[4], (true, false, false, 8));
    assert_eq!(cells.iter().filter(|c| c.1).count(), 8);
    assert_counts_right(&mut grid);
}

#[test]
fn picks_of_the_wrong_length_are_refused() {
    let mut grid = CellMap::new(3, 3, 2).unwrap();
    let before = cells_of(&mut grid);
    assert_eq!(grid.generate_with(0, 0, &vec![0]), Err(GridError::BadPicks));
    assert_eq!(grid.generate_with(0, 0, &vec![0, 0, 0]), Err(GridError::BadPicks));
    assert_eq!(grid.generate_with(0, 0, &vec![]), Err(GridError::BadPicks));
    assert_eq!(cells_of(&mut grid), before);
    assert_eq!(grid.generate_with(0, 0, &vec![7, 6]), Ok(()));
}

#[test]
fn picks_out_of_range_are_refused() {
    let mut grid = CellMap::new(3, 3, 2).unwrap();
    let before = cells_of(&mut grid);
    assert_eq!(grid.generate_with(0, 0, &vec![8, 0]), Err(GridError::BadPicks));
    assert_eq!(grid.generate_with(0, 0, &vec![0, 7]), Err(GridError::BadPicks));
    assert_eq!(grid.generate_with(0, 0, &vec![usize::MAX, 0]), Err(GridError::BadPicks));
    assert_eq!(cells_of(&mut grid), before);
    assert_eq!(grid.generate_with(-1, -1, &vec![8, 7]), Ok(()));
}

#[test]
fn generation_runs_once() {
    let mut grid = CellMap::new(3, 3, 2).unwrap();
    assert_eq!(grid.generate_with(1, 1, &vec![0, 0]), Ok(()));
    let before = cells_of(&mut grid);
    assert_eq!(grid.generate_with(1, 1, &vec![5, 5]), Ok(()));
    assert_eq!(grid.generate_with(1, 1, &vec![]), Ok(()));
    grid.generate(2, 2);
    assert_eq!(cells_of(&mut grid), before);
}

#[test]
fn generation_keeps_flags_and_cover() {
    let mut grid = CellMap::new(3, 3, 2).unwrap();
    grid.flag_cell(0, 0);
    grid.flag_cell(2, 2);
    grid.generate(1, 1);
    let cells = cells_of(&mut grid);
    let flags: Vec<bool> = cells.iter().map(|c| c.2).collect();
    assert_eq!(flags, vec![true, false, false, false, false, false, false, false, true]);
    assert!(cells.iter().all(|c| c.0));
}

#[test]
fn random_generation_places_exactly_the_traps_asked_for() {
    for _ in 0..50 {
        let mut grid = CellMap::new(9, 9, 10).unwrap();
        grid.generate(4, 4);
        let cells = cells_of(&mut grid);
        assert_eq!(cells.iter().filter(|c| c.1).count(), 10);
        assert!(!cells[4 * 9 + 4].1);
        assert_counts_right(&mut grid);
    }
}

#[test]
fn random_generation_fills_a_dense_grid() {
    for _ in 0..20 {
        let mut grid = CellMap::new(4, 3, 11).unwrap();
        grid.generate(2, 1);
        let cells = cells_of(&mut grid);
        assert_eq!(cells.iter().filter(|c| c.1).count(), 11);
        assert!(!cells[1 * 4 + 2].1);
        assert_eq!(cells[1 * 4 + 2].3, 8);
        assert_counts_right(&mut grid);
    }
}

#[test]
fn random_generation_on_a_grid_that_is_not_square() {
    for _ in 0..20 {
        let mut grid = CellMap::new(7, 3, 6).unwrap();
        grid.generate(6, 2);
        let cells = cells_of(&mut grid);
        assert_eq!(cells.iter().filter(|c| c.1).count(), 6);
        assert!(!cells[2 * 7 + 6].1);
        assert_counts_right(&mut grid);
    }
}

#[test]
fn random_generation_without_traps() {
    let mut grid = CellMap::new(3, 3, 0).unwrap();
    grid.generate(0, 0);
    assert!(cells_of(&mut grid).iter().all(|c| *c == (true, false, false, 0)));
}

#[test]
fn random_generation_varies() {
    let mut layouts = Vec::new();
    for _ in 0..20 {
        let mut grid = CellMap::new(9, 9, 10).unwrap();
        grid.generate(4, 4);
        let traps: Vec<bool> = cells_of(&mut grid).iter().map(|c| c.1).collect();
        if !layouts.contains(&traps) {
            layouts.push(traps);
        }
    }
    assert!(layouts.len() > 1);
}
