use game_of_life::grid::{Grid, StandardGrid};

#[test]
fn test_new_grid() {
    let grid = StandardGrid::new(10, 5);
    assert_eq!(grid.width(), 10);
    assert_eq!(grid.height(), 5);
    assert_eq!(grid.total_cells(), 50);
    assert_eq!(grid.count_live_cells(), 0);
}

#[test]
fn test_set_get_cell() {
    let mut grid = StandardGrid::new(3, 3);
    assert!(!grid.get_cell(1, 1));

    grid.set_cell(1, 1, true);
    assert!(grid.get_cell(1, 1));
    assert_eq!(grid.count_live_cells(), 1);
}

#[test]
fn test_from_string_pattern() {
    let pattern = ["...", ".#.", "..."];

    let grid = StandardGrid::from_string_pattern(&pattern, '#', '.').unwrap();
    assert_eq!(grid.width(), 3);
    assert_eq!(grid.height(), 3);
    assert!(grid.get_cell(1, 1));
    assert!(!grid.get_cell(0, 0));
    assert_eq!(grid.count_live_cells(), 1);
}

#[test]
fn test_count_neighbors() {
    let pattern = ["#.#", ".#.", "#.#"];

    let grid = StandardGrid::from_string_pattern(&pattern, '#', '.').unwrap();
    assert_eq!(grid.count_neighbors(1, 1), 4); // Center cell has 4 neighbors
    assert_eq!(grid.count_neighbors(0, 0), 1); // Corner cell has 1 neighbor
    assert_eq!(grid.count_neighbors(0, 1), 3); // Edge cell has 3 neighbors
}

#[test]
fn test_pattern_conversion() {
    let pattern = ["⬜█⬜", "█⬜█", "⬜█⬜"];
    let grid = StandardGrid::from_string_pattern(&pattern, '█', '⬜').unwrap();

    assert_eq!(grid.width(), 3);
    assert_eq!(grid.height(), 3);
    assert_eq!(grid.count_live_cells(), 4);

    assert!(!grid.get_cell(0, 0)); // ⬜
    assert!(grid.get_cell(0, 1)); // █
    assert!(!grid.get_cell(0, 2)); // ⬜
}

#[test]
fn from_cells_makes_the_grid_of_the_rows() {
    let grid = StandardGrid::from_cells(vec![
        vec![true, false, false],
        vec![false, false, true],
    ])
    .unwrap();
    assert_eq!(grid.width(), 3);
    assert_eq!(grid.height(), 2);
    assert_eq!(grid.cells(), &[true, false, false, false, false, true]);
    assert!(grid.get_cell(0, 0));
    assert!(grid.get_cell(1, 2));
    assert_eq!(grid.count_live_cells(), 2);
}

#[test]
fn from_cells_says_what_is_wrong() {
    assert_eq!(
        StandardGrid::from_cells(vec![]).unwrap_err(),
        "Grid cannot be empty"
    );
    assert_eq!(
        StandardGrid::from_cells(vec![vec![], vec![true]]).unwrap_err(),
        "Grid width cannot be zero"
    );
    assert_eq!(
        StandardGrid::from_cells(vec![vec![true; 3], vec![true; 2], vec![true; 1]]).unwrap_err(),
        "Row 1 has length 2, expected 3"
    );
    let mut rows = vec![vec![false; 12]; 11];
    rows[10] = vec![false; 120];
    assert_eq!(
        StandardGrid::from_cells(rows).unwrap_err(),
        "Row 10 has length 120, expected 12"
    );
}

#[test]
fn from_string_pattern_says_what_is_wrong() {
    let empty: [&str; 0] = [];
    assert_eq!(
        StandardGrid::from_string_pattern(&empty, '#', '.').unwrap_err(),
        "Pattern cannot be empty"
    );
    assert_eq!(
        StandardGrid::from_string_pattern(&["", "#"], '#', '.').unwrap_err(),
        "Pattern width cannot be zero"
    );
    assert_eq!(
        StandardGrid::from_string_pattern(&["##", "#"], '#', '.').unwrap_err(),
        "Row 1 has length 1, expected 2"
    );
    assert_eq!(
        StandardGrid::from_string_pattern(&["#x", "#"], '#', '.').unwrap_err(),
        "Invalid character 'x' in pattern"
    );
    assert_eq!(
        StandardGrid::from_string_pattern(&["#.", "#", "x."], '#', '.').unwrap_err(),
        "Row 1 has length 1, expected 2"
    );
    assert_eq!(
        StandardGrid::from_string_pattern(&["..", ".█"], '#', '.').unwrap_err(),
        "Invalid character '█' in pattern"
    );
}

#[test]
fn a_character_for_both_states_is_alive() {
    let grid = StandardGrid::from_string_pattern(&["##"], '#', '#').unwrap();
    assert_eq!(grid.count_live_cells(), 2);
}

#[test]
fn neighbours_at_the_edges_and_beyond() {
    let grid = StandardGrid::from_string_pattern(&["###", "###", "###"], '#', '.').unwrap();
    assert_eq!(grid.count_neighbors(1, 1), 8);
    assert_eq!(grid.count_neighbors(0, 0), 3);
    assert_eq!(grid.count_neighbors(2, 2), 3);
    assert_eq!(grid.count_neighbors(0, 1), 5);
    assert_eq!(grid.count_neighbors(3, 1), 3);
    assert_eq!(grid.count_neighbors(1, 3), 3);
    assert_eq!(grid.count_neighbors(3, 3), 1);
    assert_eq!(grid.count_neighbors(4, 1), 0);
    assert_eq!(grid.count_neighbors(usize::MAX, usize::MAX), 0);
    assert_eq!(grid.count_neighbors(usize::MAX, 0), 0);
}

#[test]
fn clear_and_cells_mut() {
    let mut grid = StandardGrid::from_string_pattern(&["#.", ".#"], '#', '.').unwrap();
    grid.cells_mut()[1] = true;
    assert!(grid.get_cell(0, 1));
    assert_eq!(grid.count_live_cells(), 3);
    grid.set_cell(0, 0, false);
    assert_eq!(grid.cells(), &[false, true, false, true]);
    grid.clear();
    assert_eq!(grid.count_live_cells(), 0);
    assert_eq!(grid.width(), 2);
    assert_eq!(grid.height(), 2);
    assert_eq!(grid.total_cells(), 4);
}

#[test]
fn grids_of_no_size() {
    let grid = StandardGrid::new(0, 7);
    assert_eq!(grid.total_cells(), 0);
    assert_eq!(grid.count_live_cells(), 0);
    assert_eq!(grid.count_neighbors(0, 0), 0);
    assert_eq!(StandardGrid::new(7, 0).width(), 7);
}

#[test]
fn cells_are_kept_in_reading_order() {
    let grid = StandardGrid::from_string_pattern(&["..#", "#.."], '#', '.').unwrap();
    assert_eq!(grid.index(0, 0), 0);
    assert_eq!(grid.index(0, 2), 2);
    assert_eq!(grid.index(1, 0), 3);
    assert_eq!(grid.index(1, 2), 5);
    assert!(grid.cells()[grid.index(0, 2)]);
    assert!(grid.cells()[grid.index(1, 0)]);
    assert!(grid.alive_beside(0, 1, 1, 2));
    assert!(grid.alive_beside(0, 1, 2, 0));
    assert!(!grid.alive_beside(0, 0, 0, 0));
    assert!(!grid.alive_beside(1, 2, 2, 2));
    assert!(grid.alive_beside(2, 1, 0, 0));
}
