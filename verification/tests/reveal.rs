use rustsweeper::CellMap;

/// The state of every cell, row by row: hidden, trap, flagged, count.
fn state_of(grid: &mut CellMap) -> Vec<(bool, bool, bool, u8)> {
    let (width, height) = grid.get_dimensions();
    let mut cells = Vec::new();
    for y in 0..height {
        for x in 0..width {
            let cell = grid.get_cell(x as i32, y as i32).unwrap();
            cells.push((
                cell.is_hidden(),
                cell.is_trap(),
                cell.is_flagged(),
                cell.get_adjacent_trap_count(),
            ));
        }
    }
    cells
}

fn hidden_map(grid: &mut CellMap) -> Vec<bool> {
    state_of(grid).iter().map(|c| c.0).collect()
}

/// A reveal by plain recursion over the cells, to compare with.
fn reveal_by_recursion(
    cells: &mut Vec<(bool, bool, bool, u8)>,
    width: i64,
    height: i64,
    x: i64,
    y: i64,
) {
    if x < 0 || y < 0 || x >= width || y >= height {
        return;
    }
    let i = (y * width + x) as usize;
    let (hidden, trap, flagged, count) = cells[i];
    if flagged {
        return;
    }
    cells[i].0 = false;
    if hidden && !trap && count == 0 {
        for dy in -1..=1 {
            for dx in -1..=1 {
                if dx != 0 || dy != 0 {
                    reveal_by_recursion(cells, width, height, x + dx, y + dy);
                }
            }
        }
    }
}

/// Five by five, traps at (4, 0) and (3, 3):
///
/// ```text
/// 0 0 0 1 T
/// 0 0 0 1 1
/// 0 0 1 1 1
/// 0 0 1 T 1
/// 0 0 1 1 1
/// ```
fn two_trap_board() -> CellMap {
    let mut grid = CellMap::new(5, 5, 2).unwrap();
    grid.generate_with(0, 0, &vec![3, 16]).unwrap();
    grid
}

#[test]
fn cascade_uncovers_the_region_and_its_border() {
    let mut grid = two_trap_board();
    grid.reveal_cell(0, 0);
    let h = true;
    let r = false;
    assert_eq!(
        hidden_map(&mut grid),
        vec![
            r, r, r, r, h, //
            r, r, r, r, h, //
            r, r, r, r, h, //
            r, r, r, h, h, //
            r, r, r, h, h,
        ]
    );
}

#[test]
fn cascade_changes_nothing_but_the_cover() {
    let mut grid = two_trap_board();
    let before = state_of(&mut grid);
    grid.reveal_cell(1, 3);
    let after = state_of(&mut grid);
    for i in 0..25 {
        assert_eq!(after[i].1, before[i].1);
        assert_eq!(after[i].2, before[i].2);
        assert_eq!(after[i].3, before[i].3);
    }
}

#[test]
fn cascade_starts_the_same_from_anywhere_in_the_region() {
    let mut from_corner = two_trap_board();
    from_corner.reveal_cell(0, 0);
    let mut from_edge = two_trap_board();
    from_edge.reveal_cell(2, 1);
    let mut from_bottom = two_trap_board();
    from_bottom.reveal_cell(1, 4);
    assert_eq!(hidden_map(&mut from_edge), hidden_map(&mut from_corner));
    assert_eq!(hidden_map(&mut from_bottom), hidden_map(&mut from_corner));
}

#[test]
fn a_numbered_cell_is_uncovered_alone() {
    let mut grid = two_trap_board();
    grid.reveal_cell(2, 2);
    let hidden = hidden_map(&mut grid);
    for i in 0..25 {
        assert_eq!(hidden[i], i != 12);
    }
}

#[test]
fn a_trap_is_uncovered_alone() {
    let mut grid = two_trap_board();
    grid.reveal_cell(3, 3);
    let hidden = hidden_map(&mut grid);
    for i in 0..25 {
        assert_eq!(hidden[i], i != 18);
    }
    let cell = grid.get_cell(3, 3).unwrap();
    assert!(cell.is_trap());
    assert!(!cell.is_hidden());
}

#[test]
fn a_flagged_cell_is_not_uncovered() {
    let mut grid = two_trap_board();
    grid.flag_cell(0, 0);
    grid.flag_cell(2, 2);
    grid.flag_cell(3, 3);
    let before = state_of(&mut grid);
    grid.reveal_cell(0, 0);
    grid.reveal_cell(2, 2);
    grid.reveal_cell(3, 3);
    assert_eq!(state_of(&mut grid), before);
}

#[test]
fn a_flagged_cell_stays_hidden_on_a_fresh_grid() {
    let mut grid = CellMap::new(4, 4, 3).unwrap();
    grid.flag_cell(1, 1);
    grid.reveal_cell(1, 1);
    let cells = state_of(&mut grid);
    assert!(cells.iter().all(|c| c.0));
    assert_eq!(cells.iter().filter(|c| c.1).count(), 3);
    assert!(!cells[5].1);
    assert!(cells[5].2);
}

#[test]
fn a_flagged_open_cell_is_left_alone() {
    let mut grid = two_trap_board();
    for y in 0..5 {
        grid.flag_cell(1, y);
    }
    grid.reveal_cell(0, 2);
    for y in 0..5 {
        grid.flag_cell(1, y);
    }
    grid.flag_cell(0, 2);
    let before = state_of(&mut grid);
    assert_eq!(before[10], (false, false, true, 0));
    grid.reveal_cell(0, 2);
    assert_eq!(state_of(&mut grid), before);
}

#[test]
fn flags_stop_the_cascade() {
    let mut grid = two_trap_board();
    for y in 0..5 {
        grid.flag_cell(1, y);
    }
    grid.reveal_cell(0, 2);
    let h = true;
    let r = false;
    assert_eq!(
        hidden_map(&mut grid),
        vec![
            r, h, h, h, h, //
            r, h, h, h, h, //
            r, h, h, h, h, //
            r, h, h, h, h, //
            r, h, h, h, h,
        ]
    );
}

#[test]
fn a_flag_inside_the_region_stays_covered() {
    let mut grid = two_trap_board();
    grid.flag_cell(1, 2);
    grid.flag_cell(3, 1);
    grid.reveal_cell(0, 0);
    let h = true;
    let r = false;
    assert_eq!(
        hidden_map(&mut grid),
        vec![
            r, r, r, r, h, //
            r, r, r, h, h, //
            r, h, r, r, h, //
            r, r, r, h, h, //
            r, r, r, h, h,
        ]
    );
}

#[test]
fn an_uncovered_blank_cell_does_not_cascade_again() {
    let mut grid = two_trap_board();
    for y in 0..5 {
        grid.flag_cell(1, y);
    }
    grid.reveal_cell(0, 2);
    for y in 0..5 {
        grid.flag_cell(1, y);
    }
    let before = state_of(&mut grid);
    grid.reveal_cell(0, 2);
    assert_eq!(state_of(&mut grid), before);
    grid.reveal_cell(1, 2);
    assert!(hidden_map(&mut grid).iter().filter(|h| !**h).count() > 6);
}

#[test]
fn reveal_twice_is_reveal_once() {
    for (x, y) in [(0, 0), (2, 2), (3, 3), (4, 4), (4, 0), (1, 4)] {
        let mut grid = two_trap_board();
        grid.reveal_cell(x, y);
        let once = state_of(&mut grid);
        grid.reveal_cell(x, y);
        assert_eq!(state_of(&mut grid), once);
    }
}

#[test]
fn reveal_twice_is_reveal_once_on_a_fresh_grid() {
    for _ in 0..20 {
        let mut grid = CellMap::new(9, 9, 10).unwrap();
        grid.reveal_cell(4, 4);
        let once = state_of(&mut grid);
        grid.reveal_cell(4, 4);
        assert_eq!(state_of(&mut grid), once);
    }
}

#[test]
fn reveal_outside_the_grid_changes_nothing() {
    let mut grid = two_trap_board();
    let before = state_of(&mut grid);
    grid.reveal_cell(-1, -1);
    grid.reveal_cell(5, 5);
    grid.reveal_cell(5, 0);
    grid.reveal_cell(0, 5);
    grid.reveal_cell(-1, 2);
    grid.reveal_cell(i32::MIN, i32::MAX);
    assert_eq!(state_of(&mut grid), before);
}

#[test]
fn reveal_outside_a_fresh_grid_places_no_trap() {
    let mut grid = CellMap::new(9, 9, 10).unwrap();
    grid.reveal_cell(-1, -1);
    grid.reveal_cell(9, 9);
    assert!(state_of(&mut grid).iter().all(|c| *c == (true, false, false, 0)));
    grid.reveal_cell(4, 4);
    assert_eq!(state_of(&mut grid).iter().filter(|c| c.1).count(), 10);
}

#[test]
fn first_reveal_is_always_safe() {
    for _ in 0..50 {
        let mut grid = CellMap::new(9, 9, 10).unwrap();
        grid.reveal_cell(4, 4);
        let cell = grid.get_cell(4, 4).unwrap();
        assert!(!cell.is_trap());
        assert!(!cell.is_hidden());
        assert_eq!(state_of(&mut grid).iter().filter(|c| c.1).count(), 10);
    }
}

#[test]
fn first_reveal_on_a_blank_cell_opens_its_neighbourhood() {
    let mut seen_blank = false;
    for _ in 0..200 {
        let mut grid = CellMap::new(9, 9, 10).unwrap();
        grid.flag_cell(0, 0);
        grid.reveal_cell(4, 4);
        let cells = state_of(&mut grid);
        assert!(cells[0].0);
        if cells[4 * 9 + 4].3 == 0 {
            seen_blank = true;
            for y in 3..6 {
                for x in 3..6 {
                    assert!(!cells[y * 9 + x].0);
                }
            }
        } else {
            assert_eq!(cells.iter().filter(|c| !c.0).count(), 1);
        }
        for cell in &cells {
            if !cell.0 {
                assert!(!cell.1);
            }
        }
    }
    assert!(seen_blank);
}

#[test]
fn cascade_agrees_with_plain_recursion() {
    for round in 0..100 {
        let mut grid = CellMap::new(8, 6, 7).unwrap();
        grid.generate(3, 3);
        if round % 2 == 0 {
            grid.flag_cell(2, 2);
            grid.flag_cell(5, 4);
            grid.flag_cell(0, 5);
        }
        for (x, y) in [(3, 3), (0, 0), (7, 5), (2, 2), (6, 1)] {
            let mut expected = state_of(&mut grid);
            reveal_by_recursion(&mut expected, 8, 6, x, y);
            grid.reveal_cell(x as i32, y as i32);
            assert_eq!(state_of(&mut grid), expected);
        }
    }
}

#[test]
fn single_cell_grid() {
    let mut grid = CellMap::new(1, 1, 0).unwrap();
    grid.reveal_cell(0, 0);
    assert_eq!(state_of(&mut grid), vec![(false, false, false, 0)]);
    grid.reveal_cell(0, 0);
    assert_eq!(state_of(&mut grid), vec![(false, false, false, 0)]);
}

#[test]
fn a_grid_without_traps_opens_whole() {
    let mut grid = CellMap::new(6, 4, 0).unwrap();
    grid.reveal_cell(5, 3);
    assert!(hidden_map(&mut grid).iter().all(|h| !*h));
}

#[test]
fn a_long_corridor_opens_whole() {
    let mut grid = CellMap::new(20000, 1, 0).unwrap();
    grid.reveal_cell(0, 0);
    assert!(!grid.get_cell(19999, 0).unwrap().is_hidden());
    assert!(!grid.get_cell(10000, 0).unwrap().is_hidden());
}

#[test]
fn a_dense_grid_opens_one_cell() {
    let mut grid = CellMap::new(3, 3, 8).unwrap();
    grid.reveal_cell(1, 1);
    let cells = state_of(&mut grid);
    assert_eq!(cells[4], (false, false, false, 8));
    assert_eq!(cells.iter().filter(|c| !c.0).count(), 1);
}
