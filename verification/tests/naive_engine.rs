use game_of_life::prelude::{GameOfLifeEngine, Grid, NaiveEngine, StandardGrid};

#[test]
fn test_naive_engine_creation() {
    let engine = NaiveEngine::new(10, 10);
    assert_eq!(engine.get_grid().width(), 10);
    assert_eq!(engine.get_grid().height(), 10);
    assert_eq!(engine.get_grid().count_live_cells(), 0);
}

#[test]
fn test_blinker_pattern() {
    // Create a blinker pattern (oscillates with period 2)
    let pattern = ["...", "###", "..."];

    let grid = StandardGrid::from_string_pattern(&pattern, '#', '.').unwrap();
    let mut engine = NaiveEngine::from_grid(&grid as &dyn Grid);

    // Initial state: horizontal line
    assert_eq!(engine.get_grid().count_live_cells(), 3);
    assert!(engine.get_grid().get_cell(1, 0));
    assert!(engine.get_grid().get_cell(1, 1));
    assert!(engine.get_grid().get_cell(1, 2));

    // After one step: vertical line
    engine.step();
    assert_eq!(engine.get_grid().count_live_cells(), 3);
    assert!(engine.get_grid().get_cell(0, 1));
    assert!(engine.get_grid().get_cell(1, 1));
    assert!(engine.get_grid().get_cell(2, 1));

    // After another step: back to horizontal line
    engine.step();
    assert_eq!(engine.get_grid().count_live_cells(), 3);
    assert!(engine.get_grid().get_cell(1, 0));
    assert!(engine.get_grid().get_cell(1, 1));
    assert!(engine.get_grid().get_cell(1, 2));
}

#[test]
fn test_block_pattern() {
    // Create a block pattern (still life)
    let pattern = ["....", ".##.", ".##.", "...."];

    let grid = StandardGrid::from_string_pattern(&pattern, '#', '.').unwrap();
    let mut engine = NaiveEngine::from_grid(&grid as &dyn Grid);

    // Block should remain stable
    let initial_count = engine.get_grid().count_live_cells();
    assert_eq!(initial_count, 4);

    engine.step();
    assert_eq!(engine.get_grid().count_live_cells(), initial_count);

    engine.step();
    assert_eq!(engine.get_grid().count_live_cells(), initial_count);
}

#[test]
fn naive_step_follows_the_rule() {
    let pattern = ["##..", "#...", "....", "...#"];
    let grid = StandardGrid::from_string_pattern(&pattern, '#', '.').unwrap();
    let mut engine = NaiveEngine::from_grid(&grid);
    engine.step();
    let expected = ["##..", "##..", "....", "...."];
    for (row, line) in expected.iter().enumerate() {
        for (col, ch) in line.chars().enumerate() {
            assert_eq!(engine.get_cell(row, col), ch == '#');
        }
    }
    assert_eq!(engine.count_live_cells(), 4);
    assert_eq!(engine.width(), 4);
    assert_eq!(engine.height(), 4);
}

#[test]
fn naive_set_grid_takes_the_size_of_the_grid() {
    let mut engine = NaiveEngine::new(2, 2);
    let grid = StandardGrid::from_string_pattern(&["#..", "..#"], '#', '.').unwrap();
    engine.set_grid(&grid);
    assert_eq!(engine.width(), 3);
    assert_eq!(engine.height(), 2);
    assert!(engine.get_cell(0, 0));
    assert!(engine.get_cell(1, 2));
    assert_eq!(engine.count_live_cells(), 2);
    let other = StandardGrid::from_string_pattern(&[".#.", "..."], '#', '.').unwrap();
    engine.set_grid(&other);
    assert_eq!(engine.count_live_cells(), 1);
    assert!(engine.get_cell(0, 1));
    engine.run_steps(1);
    assert_eq!(engine.count_live_cells(), 0);
}

#[test]
fn naive_engine_of_no_size() {
    let mut engine = NaiveEngine::new(0, 0);
    engine.step();
    assert_eq!(engine.count_live_cells(), 0);
    let mut flat = NaiveEngine::new(5, 0);
    flat.step();
    assert_eq!(flat.width(), 5);
    assert_eq!(flat.height(), 0);
}

#[test]
fn naive_engine_describes_itself() {
    let info = NaiveEngine::new(1, 1).benchmark_info();
    assert_eq!(info.name, "Naive");
    assert_eq!(
        info.description,
        "Basic cell-by-cell simulation with parallel row processing"
    );
    assert_eq!(info.memory_per_cell_bits, 8);
    assert!(info.supports_parallel);
    assert!(!info.supports_simd);
    assert_eq!(info.min_grid_size, Some((1, 1)));
    assert_eq!(info.max_grid_size, None);
}
