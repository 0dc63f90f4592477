use game_of_life::engines::ultimate::{
    auto_from_grid_ultimate_engine, auto_new_ultimate_engine, boundary_mask, create_optimal_engine,
    div_ceil, safe_auto_new_ultimate_engine, shl, shl_with_carry, shr, shr_with_carry,
    simd_supported, sub_step_word,
};
use game_of_life::prelude::{
    AutoEngine, GameOfLifeEngine, Grid, NaiveEngine, StandardGrid, UltimateEngine,
};

#[test]
fn test_ultimate_engine_functionality() {
    let pattern = ["...", "###", "..."];
    let grid = StandardGrid::from_string_pattern(&pattern, '#', '.').unwrap();
    let mut engine = UltimateEngine::<4>::from_grid(&grid);

    assert_eq!(engine.count_live_cells(), 3);
    engine.step();
    assert_eq!(engine.count_live_cells(), 3);
    engine.step();
    assert_eq!(engine.count_live_cells(), 3);
}

#[test]
fn test_engine_equivalence() {
    let pattern = [".....", ".###.", ".....", ".###.", "....."];
    let grid = StandardGrid::from_string_pattern(&pattern, '#', '.').unwrap();

    let mut naive_engine = NaiveEngine::from_grid(&grid as &dyn Grid);
    let mut ultimate_engine = UltimateEngine::<4>::from_grid(&grid as &dyn Grid);

    for step in 0..5 {
        assert_eq!(
            naive_engine.get_grid().count_live_cells(),
            ultimate_engine.count_live_cells(),
            "Engines diverged at step {}",
            step
        );

        naive_engine.step();
        ultimate_engine.step();
    }
}

fn scattered(width: usize, height: usize, seed: u64) -> StandardGrid {
    let mut grid = StandardGrid::new(width, height);
    let mut state = seed;
    for row in 0..height {
        for col in 0..width {
            state = state
                .wrapping_mul(6364136223846793005)
                .wrapping_add(1442695040888963407);
            if (state >> 33) % 3 == 0 {
                grid.set_cell(row, col, true);
            }
        }
    }
    grid
}

fn same_cells<A: GameOfLifeEngine, B: GameOfLifeEngine>(a: &A, b: &B) -> bool {
    if a.width() != b.width() || a.height() != b.height() {
        return false;
    }
    for row in 0..a.height() {
        for col in 0..a.width() {
            if a.get_cell(row, col) != b.get_cell(row, col) {
                return false;
            }
        }
    }
    a.count_live_cells() == b.count_live_cells()
}

fn agree_for<const N: usize>(width: usize, height: usize, steps: usize, seed: u64) {
    let grid = scattered(width, height, seed);
    let mut naive = NaiveEngine::from_grid(&grid);
    let mut packed = UltimateEngine::<N>::from_grid(&grid);
    assert!(same_cells(&naive, &packed));
    for _ in 0..steps {
        GameOfLifeEngine::step(&mut naive);
        GameOfLifeEngine::step(&mut packed);
        assert!(same_cells(&naive, &packed));
    }
}

#[test]
fn engines_agree_on_64_by_64() {
    agree_for::<4>(64, 64, 8, 1);
}

#[test]
fn engines_agree_on_200_by_200() {
    agree_for::<4>(200, 200, 6, 2);
}

#[test]
fn engines_agree_where_the_width_ends_inside_a_word() {
    agree_for::<4>(100, 20, 12, 3);
    agree_for::<4>(65, 9, 12, 4);
    agree_for::<4>(127, 7, 12, 5);
    agree_for::<4>(129, 7, 12, 6);
    agree_for::<4>(63, 11, 12, 7);
    agree_for::<4>(1, 30, 5, 8);
    agree_for::<4>(30, 1, 5, 9);
    agree_for::<4>(257, 5, 8, 10);
}

#[test]
fn engines_agree_for_other_lane_counts() {
    agree_for::<1>(130, 17, 10, 11);
    agree_for::<2>(130, 17, 10, 12);
    agree_for::<8>(130, 17, 10, 13);
    agree_for::<3>(200, 9, 10, 14);
}

#[test]
fn cells_beyond_the_width_stay_dead() {
    let mut grid = StandardGrid::new(100, 3);
    grid.set_cell(0, 99, true);
    grid.set_cell(1, 99, true);
    grid.set_cell(2, 99, true);
    let mut packed = UltimateEngine::<4>::from_grid(&grid);
    packed.step_batch(1);
    assert!(packed.get(98, 1));
    assert!(packed.get(99, 1));
    assert_eq!(packed.count_live_cells(), 2);
    packed.step_batch(1);
    assert_eq!(packed.count_live_cells(), 0);
}

#[test]
fn result_does_not_depend_on_the_workers() {
    let grid = scattered(150, 37, 21);
    let mut alone = UltimateEngine::<4>::sequential(150, 37);
    alone.set_grid(&grid);
    alone.step_batch(9);
    for threads in [1usize, 2, 3, 5, 8, 64] {
        let mut pooled = UltimateEngine::<4>::with_threads(150, 37, threads);
        pooled.set_grid(&grid);
        pooled.step_batch(9);
        assert!(same_cells(&alone, &pooled));
    }
    let mut sized_by_host = UltimateEngine::<4>::new(150, 37);
    sized_by_host.set_grid(&grid);
    sized_by_host.step_batch(9);
    assert!(same_cells(&alone, &sized_by_host));
}

#[test]
fn step_in_the_pool_changes_the_generation() {
    let mut engine = UltimateEngine::<4>::with_threads(5, 5, 2);
    engine.set(1, 2);
    engine.set(2, 2);
    engine.set(3, 2);
    engine.step_batch(1);
    assert!(!engine.get(1, 2));
    assert!(engine.get(2, 1));
    assert!(engine.get(2, 2));
    assert!(engine.get(2, 3));
    assert!(!engine.get(3, 2));
}

#[test]
fn blinker_turns_and_turns_back() {
    for (width, height) in [(5usize, 5usize), (7, 5), (64, 64), (65, 66), (200, 9)] {
        let row = height / 2;
        let col = width / 2;
        let mut engine = UltimateEngine::<4>::new(width, height);
        engine.set(col - 1, row);
        engine.set(col, row);
        engine.set(col + 1, row);
        assert_eq!(engine.count_live_cells(), 3);
        engine.step_batch(1);
        assert_eq!(engine.count_live_cells(), 3);
        assert!(engine.get(col, row - 1));
        assert!(engine.get(col, row));
        assert!(engine.get(col, row + 1));
        engine.step_batch(1);
        assert_eq!(engine.count_live_cells(), 3);
        assert!(engine.get(col - 1, row));
        assert!(engine.get(col, row));
        assert!(engine.get(col + 1, row));
    }
}

#[test]
fn block_stays() {
    let mut engine = UltimateEngine::<4>::new(70, 6);
    for (x, y) in [(63usize, 2usize), (64, 2), (63, 3), (64, 3)] {
        engine.set(x, y);
    }
    for steps in [1u32, 2, 5, 17] {
        engine.step_batch(steps);
        assert_eq!(engine.count_live_cells(), 4);
        assert!(engine.get(63, 2) && engine.get(64, 2) && engine.get(63, 3) && engine.get(64, 3));
    }
}

#[test]
fn corner_cell_dies_alone() {
    let mut engine = UltimateEngine::<4>::new(10, 10);
    engine.set(0, 0);
    assert_eq!(engine.count_live_cells(), 1);
    engine.step_batch(1);
    assert_eq!(engine.count_live_cells(), 0);
}

#[test]
fn edges_do_not_wrap() {
    let mut rows = UltimateEngine::<4>::new(8, 6);
    for x in 0..8 {
        rows.set(x, 0);
    }
    rows.step_batch(1);
    for x in 0..8 {
        assert!(!rows.get(x, 5));
        assert!(!rows.get(x, 4));
    }
    let mut cols = UltimateEngine::<4>::new(64, 6);
    for y in 0..6 {
        cols.set(0, y);
    }
    cols.step_batch(1);
    for y in 0..6 {
        assert!(!cols.get(63, y));
        assert!(!cols.get(62, y));
    }
}

#[test]
fn run_steps_is_steps_one_by_one() {
    let grid = scattered(90, 20, 33);
    let mut batch = UltimateEngine::<4>::from_grid(&grid);
    let mut single = UltimateEngine::<4>::from_grid(&grid);
    let mut run = UltimateEngine::<4>::from_grid(&grid);
    batch.step_batch(7);
    for _ in 0..7 {
        single.step();
    }
    run.run_steps(7);
    assert!(same_cells(&batch, &single));
    assert!(same_cells(&batch, &run));
    run.run_steps(0);
    assert!(same_cells(&batch, &run));
}

#[test]
fn cell_access_outside_the_grid() {
    let mut engine = UltimateEngine::<4>::new(10, 4);
    engine.set(10, 0);
    engine.set(0, 4);
    engine.set(1000, 1000);
    assert_eq!(engine.count_live_cells(), 0);
    assert!(!engine.get(10, 0));
    assert!(!engine.get(0, 4));
    assert!(!engine.get_cell(4, 0));
    engine.set(9, 3);
    assert!(engine.get(9, 3));
    assert!(engine.get_cell(3, 9));
    assert!(!engine.get_cell(9, 3));
    engine.set(9, 3);
    assert_eq!(engine.count_live_cells(), 1);
}

#[test]
fn engines_of_no_size() {
    for (width, height) in [(0usize, 0usize), (0, 5), (5, 0)] {
        for threads in [0usize, 1, 3] {
            let mut engine = UltimateEngine::<4>::with_threads(width, height, threads);
            assert_eq!(engine.width(), width);
            assert_eq!(engine.height(), height);
            assert_eq!(engine.count_live_cells(), 0);
            engine.set(0, 0);
            engine.step_batch(3);
            assert_eq!(engine.count_live_cells(), 0);
            assert!(!engine.get(0, 0));
        }
        let mut alone = UltimateEngine::<4>::sequential(width, height);
        alone.step_batch(2);
        assert_eq!(alone.count_live_cells(), 0);
    }
}

#[test]
fn shape_of_the_field() {
    let engine = UltimateEngine::<4>::new(200, 200);
    assert_eq!(engine.get_columns(), 6);
    assert_eq!(engine.get_height(), 202);
    assert_eq!(engine.width(), 200);
    assert_eq!(engine.height(), 200);
    assert_eq!(UltimateEngine::<4>::new(257, 1).get_columns(), 10);
    assert_eq!(UltimateEngine::<4>::new(256, 1).get_columns(), 6);
    assert_eq!(UltimateEngine::<1>::new(65, 1).get_columns(), 4);
    assert_eq!(UltimateEngine::<8>::new(1, 1).get_columns(), 10);
    assert_eq!(UltimateEngine::<4>::new(0, 0).get_columns(), 2);
    assert_eq!(UltimateEngine::<4>::new(0, 0).get_height(), 2);
}

#[test]
fn resource_accounting() {
    let engine = UltimateEngine::<4>::new(200, 100);
    let stats = engine.performance_stats();
    assert_eq!(stats.bits_per_cell, 1);
    assert_eq!(stats.parallel_columns, 6);
    assert_eq!(stats.memory_usage_bytes, 2 * 6 * (100 + 2) * 8);
    assert_eq!(stats.simd_width, 4);
    assert!(stats.simd_enabled);
    let small = UltimateEngine::<2>::new(0, 0).performance_stats();
    assert_eq!(small.memory_usage_bytes, 2 * 2 * 2 * 8);
    assert_eq!(small.simd_width, 2);
}

#[test]
fn fits_tells_what_can_be_built() {
    assert!(UltimateEngine::<4>::fits(0, 0));
    assert!(UltimateEngine::<4>::fits(500, 500));
    assert!(!UltimateEngine::<4>::fits(usize::MAX, 2));
    assert!(!UltimateEngine::<4>::fits(2, usize::MAX));
    assert!(!UltimateEngine::<4>::fits(1, usize::MAX / 4));
    assert!(!UltimateEngine::<0>::fits(10, 10));
}

#[test]
fn ceiling_division() {
    assert_eq!(div_ceil(0, 64), 0);
    assert_eq!(div_ceil(1, 64), 1);
    assert_eq!(div_ceil(64, 64), 1);
    assert_eq!(div_ceil(65, 64), 2);
    assert_eq!(div_ceil(usize::MAX, 1), usize::MAX);
    assert_eq!(div_ceil(usize::MAX, 2), usize::MAX / 2 + 1);
    assert_eq!(div_ceil(7, 10), 1);
}

#[test]
fn masks_keep_the_cells_inside_the_width() {
    assert_eq!(boundary_mask(100, 0), 0);
    assert_eq!(boundary_mask(100, 1), !0u64);
    assert_eq!(boundary_mask(100, 2), !0u64 << 28);
    assert_eq!(boundary_mask(100, 3), 0);
    assert_eq!(boundary_mask(128, 2), !0u64);
    assert_eq!(boundary_mask(128, 3), 0);
    assert_eq!(boundary_mask(1, 1), 1u64 << 63);
    assert_eq!(boundary_mask(63, 1), !0u64 << 1);
    assert_eq!(boundary_mask(0, 1), 0);
}

#[test]
fn shifts_carry_between_lanes() {
    let top = 1u64 << 63;
    assert_eq!(shl([top, top, top, top]), [1, 1, 1, 0]);
    assert_eq!(shl([1u64, 2, 3, top | 1]), [2, 4, 7, 2]);
    assert_eq!(shr([1u64, 1, 1, 1]), [0, top, top, top]);
    assert_eq!(shr([top | 1, 4, 2, 1]), [top >> 1, top | 2, 1, 0]);
    assert_eq!(shl([top]), [0]);
    assert_eq!(shr([1u64]), [0]);
    let none: [u64; 0] = [];
    assert_eq!(shl(none), none);
    assert_eq!(shr(none), none);
}

#[test]
fn shifts_take_the_edge_bit_from_the_next_word() {
    let top = 1u64 << 63;
    assert_eq!(shl_with_carry([top, 0, 0, 0], top), [0, 0, 0, 1]);
    assert_eq!(shl_with_carry([top, top, top, top], top | 5), [1, 1, 1, 1]);
    assert_eq!(shl_with_carry([0u64, 0, 0, 0], !top), [0, 0, 0, 0]);
    assert_eq!(shr_with_carry([1u64, 0, 0, 0], 1), [top, top, 0, 0]);
    assert_eq!(shr_with_carry([0u64, 0, 0, 0], !1u64), [0, 0, 0, 0]);
    assert_eq!(shr_with_carry([0u64, 0], 3), [top, 0]);
    assert_eq!(shl_with_carry([6u64], top), [13]);
    assert_eq!(shr_with_carry([6u64], 1), [top | 3]);
}

#[test]
fn rule_holds_for_all_512_combinations() {
    for bits in 0u32..512 {
        let center = (bits >> 8) & 1 == 1;
        let mut nbs = [0u64; 8];
        let mut count = 0;
        for (i, word) in nbs.iter_mut().enumerate() {
            if (bits >> i) & 1 == 1 {
                *word = 1;
                count += 1;
            }
        }
        let expected = count == 3 || (center && count == 2);
        let next = sub_step_word(if center { 1 } else { 0 }, &nbs);
        assert_eq!(next, if expected { 1 } else { 0 });
        let lanes: [[u64; 2]; 8] = [
            [nbs[0] << 63, nbs[0] << 17],
            [nbs[1] << 63, nbs[1] << 17],
            [nbs[2] << 63, nbs[2] << 17],
            [nbs[3] << 63, nbs[3] << 17],
            [nbs[4] << 63, nbs[4] << 17],
            [nbs[5] << 63, nbs[5] << 17],
            [nbs[6] << 63, nbs[6] << 17],
            [nbs[7] << 63, nbs[7] << 17],
        ];
        let mid = if center { 1u64 } else { 0 };
        let wide = UltimateEngine::<2>::sub_step([mid << 63, mid << 17], &lanes);
        let bit = if expected { 1u64 } else { 0 };
        assert_eq!(wide, [bit << 63, bit << 17]);
    }
}

#[test]
fn set_grid_keeps_the_engine_size() {
    let big = scattered(20, 20, 5);
    let mut engine = UltimateEngine::<4>::new(7, 9);
    engine.set(6, 8);
    engine.set_grid(&big);
    assert_eq!(engine.width(), 7);
    assert_eq!(engine.height(), 9);
    for row in 0..9 {
        for col in 0..7 {
            assert_eq!(engine.get_cell(row, col), big.get_cell(row, col));
        }
    }
    let small = StandardGrid::from_string_pattern(&["##", "#."], '#', '.').unwrap();
    engine.set_grid(&small);
    assert_eq!(engine.count_live_cells(), 3);
    assert!(engine.get(0, 0) && engine.get(1, 0) && engine.get(0, 1));
    assert!(!engine.get(6, 8));
}

#[test]
fn packed_engine_describes_itself() {
    let info = UltimateEngine::<4>::new(3, 3).benchmark_info();
    assert_eq!(info.name, "Ultimate");
    assert_eq!(
        info.description,
        "Ultimate optimization: bit-packed (64 cells/u64), SIMD (4x u64), parallel arithmetic, multi-threading"
    );
    assert_eq!(info.memory_per_cell_bits, 1);
    assert!(info.supports_parallel);
    assert!(info.supports_simd);
    assert_eq!(info.min_grid_size, Some((64, 64)));
    assert_eq!(info.max_grid_size, None);
    let wide = UltimateEngine::<16>::new(3, 3).benchmark_info();
    assert!(wide.description.contains("SIMD (16x u64)"));
}

#[test]
fn picked_engines() {
    assert!(simd_supported());
    let mut engine = auto_new_ultimate_engine(12, 12);
    assert!(matches!(engine, AutoEngine::Ultimate(_)));
    assert_eq!(engine.width(), 12);
    assert_eq!(engine.height(), 12);
    assert_eq!(engine.count_live_cells(), 0);
    let grid = StandardGrid::from_string_pattern(&[".....", "..#..", "..#..", "..#..", "....."], '#', '.')
        .unwrap();
    engine.set_grid(&grid);
    assert_eq!(engine.count_live_cells(), 3);
    engine.step();
    assert!(engine.get_cell(2, 1) && engine.get_cell(2, 2) && engine.get_cell(2, 3));
    engine.run_steps(3);
    assert!(engine.get_cell(1, 2) && engine.get_cell(2, 2) && engine.get_cell(3, 2));
    assert_eq!(engine.benchmark_info().name, "Ultimate");

    let from = auto_from_grid_ultimate_engine(&grid);
    assert!(matches!(from, AutoEngine::Ultimate(_)));
    assert_eq!(from.count_live_cells(), 3);
    assert_eq!(from.width(), 5);

    let best = create_optimal_engine(3, 4);
    assert!(matches!(best, AutoEngine::Ultimate(_)));
    assert_eq!(best.height(), 4);

    let safe = safe_auto_new_ultimate_engine(30, 40);
    assert!(matches!(safe, AutoEngine::Ultimate(_)));
    assert_eq!(safe.width(), 30);
    assert_eq!(safe.count_live_cells(), 0);
}

#[test]
fn the_other_engine_takes_over_through_the_same_interface() {
    let grid = StandardGrid::from_string_pattern(&["...", "###", "..."], '#', '.').unwrap();
    let mut engine = AutoEngine::Naive(NaiveEngine::new(9, 9));
    engine.set_grid(&grid);
    assert_eq!(engine.width(), 3);
    engine.step();
    assert!(engine.get_cell(0, 1) && engine.get_cell(1, 1) && engine.get_cell(2, 1));
    assert_eq!(engine.count_live_cells(), 3);
    assert_eq!(engine.benchmark_info().name, "Naive");
}

#[test]
fn generation_as_text() {
    let mut engine = UltimateEngine::<4>::new(3, 2);
    engine.set(1, 0);
    engine.set(2, 1);
    assert_eq!(engine.to_string(), ".█.\n..█\n");
    assert_eq!(game_of_life::render::frame(&engine, '1', '0'), "010\n001\n");
    assert_eq!(UltimateEngine::<4>::new(0, 0).to_string(), "");
    assert_eq!(UltimateEngine::<4>::new(0, 2).to_string(), "\n\n");
    let naive = NaiveEngine::from_grid(&StandardGrid::from_string_pattern(&["#."], '#', '.').unwrap());
    assert_eq!(game_of_life::render::frame(&naive, '#', '.'), "#.\n");
}
