use rustsweeper::{CellMap, GridError};

/// The state of every cell, row by row: hidden, trap, flagged, count.
fn snapshot(grid: &mut CellMap) -> Vec<(bool, bool, bool, u8)> {
    let (width, height) = grid.get_dimensions();
    let mut cells = Vec::new();
    for y in 0..height {
        for x in 0..width {
            let cell = grid.get_cell(x as i32, y as i32).unwrap();
            cells.push((
                cell.is_hidden(),
                cell.is_trap(),
                cell.is_flagged(),
                cell.get_adjacent_trap_count(),
            ));
        }
    }
    cells
}

#[test]
fn new_grid_is_all_fresh() {
    let mut grid = CellMap::new(4, 3, 5).unwrap();
    assert_eq!(grid.get_dimensions(), (4, 3));
    let cells = snapshot(&mut grid);
    assert_eq!(cells.len(), 12);
    for cell in cells {
        assert_eq!(cell, (true, false, false, 0));
    }
}

#[test]
fn new_refuses_empty_grid() {
    assert_eq!(CellMap::new(0, 3, 0).err(), Some(GridError::EmptyGrid));
    assert_eq!(CellMap::new(3, 0, 0).err(), Some(GridError::EmptyGrid));
    assert_eq!(CellMap::new(0, 0, 5).err(), Some(GridError::EmptyGrid));
}

#[test]
fn new_refuses_a_grid_too_large_to_count() {
    assert_eq!(CellMap::new(usize::MAX, 2, 0).err(), Some(GridError::TooLarge));
    assert_eq!(CellMap::new(2, usize::MAX, 0).err(), Some(GridError::TooLarge));
}

#[test]
fn new_refuses_too_many_traps() {
    assert_eq!(CellMap::new(3, 3, 9).err(), Some(GridError::TooManyTraps));
    assert_eq!(CellMap::new(3, 3, 10).err(), Some(GridError::TooManyTraps));
    assert_eq!(CellMap::new(1, 1, 1).err(), Some(GridError::TooManyTraps));
}

#[test]
fn new_accepts_one_safe_cell() {
    assert!(CellMap::new(3, 3, 8).is_ok());
    assert!(CellMap::new(1, 1, 0).is_ok());
    assert!(CellMap::new(9, 9, 10).is_ok());
}

#[test]
fn dimensions_are_width_then_height() {
    let grid = CellMap::new(7, 2, 3).unwrap();
    assert_eq!(grid.get_dimensions(), (7, 2));
}

#[test]
fn get_cell_is_none_outside_the_grid() {
    let mut grid = CellMap::new(4, 3, 2).unwrap();
    assert!(grid.get_cell(-1, 0).is_none());
    assert!(grid.get_cell(0, -1).is_none());
    assert!(grid.get_cell(-1, -1).is_none());
    assert!(grid.get_cell(4, 0).is_none());
    assert!(grid.get_cell(0, 3).is_none());
    assert!(grid.get_cell(4, 3).is_none());
    assert!(grid.get_cell(i32::MIN, i32::MIN).is_none());
    assert!(grid.get_cell(i32::MAX, i32::MAX).is_none());
    assert!(grid.get_cell(3, 2).is_some());
    assert!(grid.get_cell(0, 0).is_some());
}

#[test]
fn get_cell_addresses_rows_of_a_wide_grid() {
    let mut grid = CellMap::new(4, 2, 1).unwrap();
    grid.flag_cell(3, 0);
    grid.flag_cell(0, 1);
    let flags: Vec<bool> = snapshot(&mut grid).iter().map(|c| c.2).collect();
    assert_eq!(flags, vec![false, false, false, true, true, false, false, false]);
    assert!(grid.get_cell(3, 0).unwrap().is_flagged());
    assert!(grid.get_cell(0, 1).unwrap().is_flagged());
    assert!(!grid.get_cell(1, 1).unwrap().is_flagged());
}

#[test]
fn flag_cell_toggles_only_the_flag() {
    let mut grid = CellMap::new(3, 3, 1).unwrap();
    grid.flag_cell(1, 2);
    let cells = snapshot(&mut grid);
    for (i, cell) in cells.iter().enumerate() {
        if i == 7 {
            assert_eq!(*cell, (true, false, true, 0));
        } else {
            assert_eq!(*cell, (true, false, false, 0));
        }
    }
}

#[test]
fn flagging_twice_restores_the_grid() {
    let mut grid = CellMap::new(3, 3, 1).unwrap();
    grid.flag_cell(0, 0);
    let before = snapshot(&mut grid);
    grid.flag_cell(2, 1);
    assert!(grid.get_cell(2, 1).unwrap().is_flagged());
    grid.flag_cell(2, 1);
    assert_eq!(snapshot(&mut grid), before);
    grid.flag_cell(0, 0);
    grid.flag_cell(0, 0);
    assert_eq!(snapshot(&mut grid), before);
}

#[test]
fn flagging_outside_the_grid_changes_nothing() {
    let mut grid = CellMap::new(3, 2, 1).unwrap();
    let before = snapshot(&mut grid);
    grid.flag_cell(-1, 0);
    grid.flag_cell(3, 0);
    grid.flag_cell(0, 2);
    grid.flag_cell(-1, -1);
    assert_eq!(snapshot(&mut grid), before);
}

#[test]
fn flagging_does_not_place_the_traps() {
    let mut grid = CellMap::new(3, 3, 8).unwrap();
    grid.flag_cell(1, 1);
    let traps = snapshot(&mut grid).iter().filter(|c| c.1).count();
    assert_eq!(traps, 0);
}

#[test]
fn a_revealed_cell_can_be_flagged() {
    let mut grid = CellMap::new(2, 1, 0).unwrap();
    grid.reveal_cell(0, 0);
    grid.flag_cell(0, 0);
    let cell = grid.get_cell(0, 0).unwrap();
    assert!(!cell.is_hidden());
    assert!(cell.is_flagged());
}
