use game_of_life::benchmark::{engine_counts, BenchmarkCase, BenchmarkSuite};
use game_of_life::prelude::{GameOfLifeEngine, Grid, NaiveEngine, UltimateEngine};

#[test]
fn test_benchmark_suite_creation() {
    let suite = BenchmarkSuite::minimal();
    assert!(!suite.test_patterns().is_empty());
    assert!(!suite.grid_sizes().is_empty());
    assert!(!suite.step_counts().is_empty());
}

#[test]
fn test_pattern_creation() {
    let suite = BenchmarkSuite::new();
    let pattern = &suite.test_patterns()[0];
    let grid = suite.create_test_grid(pattern, 10, 10).unwrap();

    assert_eq!(grid.width(), 10);
    assert_eq!(grid.height(), 10);
}

#[test]
fn suites_hold_their_patterns_sizes_and_steps() {
    let suite = BenchmarkSuite::new();
    let names: Vec<&str> = suite.test_patterns().iter().map(|p| p.name.as_str()).collect();
    assert_eq!(names, ["blinker", "block", "glider", "random"]);
    assert_eq!(suite.grid_sizes(), &[(50, 50), (100, 100), (200, 200), (500, 500)]);
    assert_eq!(suite.step_counts(), &[10, 50, 100, 500]);
    assert_eq!(suite.test_patterns()[2].pattern, [".....", "..#..", "...#.", ".###.", "....."]);
    assert_eq!(suite.test_patterns()[3].pattern.len(), 7);
    assert_eq!(suite.test_patterns()[1].description, "Simple still life");
    let small = BenchmarkSuite::minimal();
    assert_eq!(small.test_patterns().len(), 1);
    assert_eq!(small.test_patterns()[0].pattern, ["...", "###", "..."]);
    assert_eq!(small.grid_sizes(), &[(10, 10), (50, 50)]);
    assert_eq!(small.step_counts(), &[10, 100]);
    assert_eq!(BenchmarkSuite::default().test_patterns().len(), 4);
}

#[test]
fn pattern_is_centred() {
    let suite = BenchmarkSuite::new();
    let grid = suite.create_test_grid(&suite.test_patterns()[0], 10, 10).unwrap();
    assert_eq!(grid.count_live_cells(), 3);
    assert!(grid.get_cell(4, 3) && grid.get_cell(4, 4) && grid.get_cell(4, 5));
    let glider = suite.create_test_grid(&suite.test_patterns()[2], 6, 9).unwrap();
    assert_eq!(glider.count_live_cells(), 5);
    assert!(glider.get_cell(3, 2));
    assert!(glider.get_cell(4, 3));
    assert!(glider.get_cell(5, 1) && glider.get_cell(5, 2) && glider.get_cell(5, 3));
}

#[test]
fn pattern_larger_than_the_grid_is_cut() {
    let suite = BenchmarkSuite::new();
    let grid = suite.create_test_grid(&suite.test_patterns()[3], 4, 2).unwrap();
    assert_eq!(grid.width(), 4);
    assert_eq!(grid.height(), 2);
    assert_eq!(grid.cells(), &[true, true, false, true, false, true, false, false]);
    let none = suite.create_test_grid(&suite.test_patterns()[3], 0, 0).unwrap();
    assert_eq!(none.total_cells(), 0);
}

#[test]
fn cases_come_in_order() {
    let suite = BenchmarkSuite::minimal();
    let cases = suite.cases();
    let seen: Vec<(usize, usize, usize, usize)> =
        cases.iter().map(|c| (c.pattern, c.width, c.height, c.steps)).collect();
    assert_eq!(
        seen,
        [(0, 10, 10, 10), (0, 10, 10, 100), (0, 50, 50, 10), (0, 50, 50, 100)]
    );
    let full = BenchmarkSuite::new().cases();
    assert_eq!(full.len(), 64);
    assert_eq!((full[0].pattern, full[0].width, full[0].steps), (0, 50, 10));
    assert_eq!((full[5].pattern, full[5].width, full[5].steps), (1, 50, 50));
    assert_eq!((full[63].pattern, full[63].height, full[63].steps), (3, 500, 500));
    assert_eq!((full[16].pattern, full[16].width, full[16].steps), (0, 100, 10));
}

#[test]
fn runs_are_named_and_counted() {
    let suite = BenchmarkSuite::minimal();
    let case = BenchmarkCase { pattern: 0, width: 10, height: 12, steps: 100 };
    assert_eq!(suite.case_name("Naive", &case), "Naive-blinker-10x12-100");
    let zero = BenchmarkCase { pattern: 0, width: 0, height: 7, steps: 0 };
    assert_eq!(suite.case_name("", &zero), "-blinker-0x7-0");

    let mut naive = NaiveEngine::new(50, 50);
    suite.prepare(&mut naive, &case);
    assert_eq!(naive.width(), 10);
    assert_eq!(naive.height(), 12);
    assert_eq!(naive.count_live_cells(), 3);
    naive.run_steps(case.steps);
    let counts = suite.summarize(&naive, &case);
    assert_eq!(counts.engine_name, "Naive-blinker-10x12-100");
    assert_eq!(counts.steps, 100);
    assert_eq!(counts.total_cells, 120);
    assert_eq!(counts.live_cells, 3);

    let mut packed = UltimateEngine::<4>::new(10, 12);
    suite.prepare(&mut packed, &case);
    packed.run_steps(3);
    let counts = suite.summarize(&packed, &case);
    assert_eq!(counts.engine_name, "Ultimate-blinker-10x12-100");
    assert_eq!(counts.total_cells, 120);
    assert_eq!(counts.live_cells, 3);
    assert!(packed.get_cell(4, 4) && packed.get_cell(5, 4) && packed.get_cell(6, 4));

    let plain = engine_counts(&packed, String::from("x"), 4);
    assert_eq!(plain.engine_name, "x");
    assert_eq!(plain.steps, 4);
    assert_eq!(plain.live_cells, 3);
}
