use game_of_life::engines::scheduler::{rows_per_worker, step_chunk, step_rows, StepInput};
use game_of_life::engines::ultimate::boundary_mask;

#[test]
fn rows_are_shared_out_rounding_up() {
    assert_eq!(rows_per_worker(10, 3), 4);
    assert_eq!(rows_per_worker(10, 5), 2);
    assert_eq!(rows_per_worker(10, 20), 1);
    assert_eq!(rows_per_worker(10, 1), 10);
    assert_eq!(rows_per_worker(10, 0), 10);
    assert_eq!(rows_per_worker(0, 4), 0);
    assert_eq!(rows_per_worker(usize::MAX, 2), usize::MAX / 2 + 1);
}

fn blinker_field() -> (Vec<u64>, Vec<u64>) {
    // A grid five cells wide and five rows high, one lane: three words per
    // row, seven rows.
    let top = 1u64 << 63;
    let mut field = vec![0u64; 21];
    field[3 * 3 + 1] = (top >> 1) | (top >> 2) | (top >> 3);
    let masks: Vec<u64> = (0..3).map(|col| boundary_mask(5, col)).collect();
    (field, masks)
}

#[test]
fn rows_are_stepped_into_the_target() {
    let top = 1u64 << 63;
    let (field, masks) = blinker_field();
    let input =
        StepInput { field: &field, masks: &masks, columns: 3, width: 5, height: 5, boundary: 1 };
    let mut target = vec![7u64; 15];
    step_rows::<1>(&input, 1, &mut target);
    let mut expected = vec![7u64; 15];
    for row in 0..5 {
        expected[row * 3 + 1] = if (1..=3).contains(&row) { top >> 2 } else { 0 };
    }
    assert_eq!(target, expected);
}

#[test]
fn a_run_is_stepped_from_its_first_row() {
    let top = 1u64 << 63;
    let (field, masks) = blinker_field();
    let input =
        StepInput { field: &field, masks: &masks, columns: 3, width: 5, height: 5, boundary: 1 };
    // Runs of two rows: run 1 holds the third and fourth row of the grid,
    // run 2 the fifth.
    let mut second = vec![0u64; 6];
    step_chunk::<1>(&input, 2, 1, &mut second);
    assert_eq!(second, [0, top >> 2, 0, 0, top >> 2, 0]);
    let mut last = vec![0u64; 3];
    step_chunk::<1>(&input, 2, 2, &mut last);
    assert_eq!(last, [0, 0, 0]);
    let mut first = vec![0u64; 6];
    step_chunk::<1>(&input, 2, 0, &mut first);
    assert_eq!(first, [0, 0, 0, 0, top >> 2, 0]);
}
