//! The patterns, grid sizes and step counts that engines are measured on.

use crate::benchmark::{engine_counts, BenchmarkCount};
use crate::board::{lemma_board_ext, lemma_empty_board, lemma_with_cell, Board};
use crate::engines::GameOfLifeEngine;
use crate::grid::{Grid, StandardGrid};
use crate::text::{decimal, owned, push_decimal};
use vstd::prelude::*;
use vstd::string::{StrSliceExecFns, StringExecFns, StringSliceAdditionalSpecFns};
use vstd::utf8::encode_utf8;

verus! {

/// A picture of a starting generation, one string per row.
#[derive(Debug, Clone)]
pub struct TestPattern {
    pub name: String,
    pub description: String,
    pub pattern: Vec<String>,
}

/// What a [`TestPattern`] holds.
pub struct PatternView {
    pub name: Seq<char>,
    pub description: Seq<char>,
    pub lines: Seq<Seq<char>>,
}

impl View for TestPattern {
    type V = PatternView;

    open spec fn view(&self) -> PatternView {
        PatternView {
            name: self.name@,
            description: self.description@,
            lines: Seq::new(self.pattern@.len(), |i: int| self.pattern@[i]@),
        }
    }
}

/// One run of a benchmark: a pattern, by its place among the suite's
/// patterns, on a grid of a size, for a number of steps.
#[derive(Debug, Clone, Copy)]
pub struct BenchmarkCase {
    pub pattern: usize,
    pub width: usize,
    pub height: usize,
    pub steps: usize,
}

/// The patterns, grid sizes and step counts of a benchmark.
pub struct BenchmarkSuite {
    test_patterns: Vec<TestPattern>,
    grid_sizes: Vec<(usize, usize)>,
    step_counts: Vec<usize>,
}

/// Whether a character of a picture stands for a live cell.
pub open spec fn is_live_char(ch: char) -> bool {
    ch == '#' || ch == '█' || ch == '*' || ch == 'O'
}

/// The first of two numbers less the second, or zero where the second is
/// larger.
pub open spec fn minus_or_zero(a: int, b: int) -> int {
    if a >= b {
        a - b
    } else {
        0
    }
}

/// The row of the grid at which a picture of `lines` rows starts when it is
/// centred on a grid `height` rows high; a picture that is too high starts at
/// the top.
pub open spec fn top_row(lines: Seq<Seq<char>>, height: nat) -> int {
    minus_or_zero(height as int, lines.len() as int) / 2
}

/// The column of the grid at which a picture starts when it is centred on a
/// grid `width` cells wide, going by the bytes of the picture's first row; a
/// picture that is too wide starts at the west edge.
pub open spec fn west_col(lines: Seq<Seq<char>>, width: nat) -> int {
    minus_or_zero(width as int, encode_utf8(lines[0]).len() as int) / 2
}

/// Whether the picture, centred on the grid, has a live cell at `(row, col)`.
pub open spec fn picture_alive(lines: Seq<Seq<char>>, width: nat, height: nat, row: int, col: int) -> bool {
    let i = row - top_row(lines, height);
    let j = col - west_col(lines, width);
    0 <= i < lines.len() && 0 <= j < lines[i].len() && is_live_char(lines[i][j])
}

/// The board of the given size with the picture at its centre. What of the
/// picture falls outside the board is left out. A picture without rows, or
/// with an empty first row, gives the empty board.
pub open spec fn centered_board(lines: Seq<Seq<char>>, width: nat, height: nat) -> Board {
    if lines.len() == 0 || encode_utf8(lines[0]).len() == 0 {
        Board::empty(width, height)
    } else {
        Board {
            width,
            rows: Seq::new(
                height,
                |row: int|
                    Seq::new(width, |col: int| picture_alive(lines, width, height, row, col)),
            ),
        }
    }
}

/// The blinker: three cells in a row, which turn about their centre with
/// period two.
pub open spec fn blinker_view() -> PatternView {
    PatternView {
        name: "blinker"@,
        description: "Simple period-2 oscillator"@,
        lines: seq!["..."@, "###"@, "..."@],
    }
}

/// The block: four cells in a square, a still life.
pub open spec fn block_view() -> PatternView {
    PatternView {
        name: "block"@,
        description: "Simple still life"@,
        lines: seq!["...."@, ".##."@, ".##."@, "...."@],
    }
}

/// The glider: five cells that move across the grid.
pub open spec fn glider_view() -> PatternView {
    PatternView {
        name: "glider"@,
        description: "Simple moving spaceship"@,
        lines: seq!["....."@, "..#.."@, "...#."@, ".###."@, "....."@],
    }
}

/// A scattered pattern for stress testing.
pub open spec fn random_view() -> PatternView {
    PatternView {
        name: "random"@,
        description: "Random pattern for stress testing"@,
        lines: seq![
            "##.#.##.#"@,
            ".#..#..#."@,
            "#.#.#.#.#"@,
            "..#...#.."@,
            "#.#.#.#.#"@,
            ".#..#..#."@,
            "##.#.##.#"@,
        ],
    }
}

/// The name of a run: the engine's name, the pattern's name, the grid's size
/// and the number of steps.
pub open spec fn case_name_text(
    engine_name: Seq<char>,
    pattern_name: Seq<char>,
    width: nat,
    height: nat,
    steps: nat,
) -> Seq<char> {
    engine_name + "-"@ + pattern_name + "-"@ + decimal(width) + "x"@ + decimal(height) + "-"@
        + decimal(steps)
}

/// A case comes before another in the order of a benchmark.
pub proof fn lemma_case_order(s: int, p: int, i: int, j: int, k: int, a: int, b: int, c: int)
    requires
        0 <= j < s,
        0 <= k < p,
        0 <= b < s,
        0 <= c < p,
        0 <= a,
        0 <= i,
        a < i || (a == i && (b < j || (b == j && c < k))),
    ensures
        0 <= (a * s + b) * p + c < (i * s + j) * p + k,
{
    assert(0 <= (a * s + b) * p + c < (i * s + j) * p + k) by (nonlinear_arith)
        requires
            0 <= j < s,
            0 <= k < p,
            0 <= b < s,
            0 <= c < p,
            0 <= a,
            0 <= i,
            a < i || (a == i && (b < j || (b == j && c < k))),
    ;
}

impl BenchmarkSuite {
    /// What the patterns of the suite hold, in order.
    pub closed spec fn patterns(&self) -> Seq<PatternView> {
        Seq::new(self.test_patterns@.len(), |i: int| self.test_patterns@[i]@)
    }

    /// The grid sizes of the suite, each a width and a height.
    pub closed spec fn sizes(&self) -> Seq<(usize, usize)> {
        self.grid_sizes@
    }

    /// The step counts of the suite.
    pub closed spec fn steps(&self) -> Seq<usize> {
        self.step_counts@
    }

    /// The run at place `(i, j, k)` of the suite's order: pattern `k` on
    /// grid size `i` for step count `j`.
    pub open spec fn case_at(&self, i: int, j: int, k: int) -> BenchmarkCase {
        BenchmarkCase {
            pattern: k as usize,
            width: self.sizes()[i].0,
            height: self.sizes()[i].1,
            steps: self.steps()[j],
        }
    }

    /// The full suite: four patterns, four grid sizes, four step counts.
    pub fn new() -> (suite: Self)
        ensures
            suite.patterns() == seq![blinker_view(), block_view(), glider_view(), random_view()],
            suite.sizes() == seq![
                (50usize, 50usize),
                (100usize, 100usize),
                (200usize, 200usize),
                (500usize, 500usize),
            ],
            suite.steps() == seq![10usize, 50usize, 100usize, 500usize],
    {
        let suite = Self {
            test_patterns: Self::default_patterns(),
            grid_sizes: vec![(50, 50), (100, 100), (200, 200), (500, 500)],
            step_counts: vec![10, 50, 100, 500],
        };
        proof {
            assert(suite.patterns() =~= seq![
                blinker_view(),
                block_view(),
                glider_view(),
                random_view(),
            ]);
            assert(suite.sizes() =~= seq![
                (50usize, 50usize),
                (100usize, 100usize),
                (200usize, 200usize),
                (500usize, 500usize),
            ]);
            assert(suite.steps() =~= seq![10usize, 50usize, 100usize, 500usize]);
        }
        suite
    }

    /// A small suite for a quick run: the blinker, two grid sizes, two step
    /// counts.
    pub fn minimal() -> (suite: Self)
        ensures
            suite.patterns() == seq![blinker_view()],
            suite.sizes() == seq![(10usize, 10usize), (50usize, 50usize)],
            suite.steps() == seq![10usize, 100usize],
    {
        let suite = Self {
            test_patterns: vec![Self::blinker_pattern()],
            grid_sizes: vec![(10, 10), (50, 50)],
            step_counts: vec![10, 100],
        };
        proof {
            assert(suite.patterns() =~= seq![blinker_view()]);
            assert(suite.sizes() =~= seq![(10usize, 10usize), (50usize, 50usize)]);
            assert(suite.steps() =~= seq![10usize, 100usize]);
        }
        suite
    }

    /// The patterns of the suite.
    pub fn test_patterns(&self) -> (patterns: &Vec<TestPattern>)
        ensures
            patterns@.len() == self.patterns().len(),
            forall|i: int| 0 <= i < patterns@.len() ==> (#[trigger] patterns@[i])@ == self.patterns()[i],
    {
        &self.test_patterns
    }

    /// The grid sizes of the suite, each a width and a height.
    pub fn grid_sizes(&self) -> (sizes: &Vec<(usize, usize)>)
        ensures
            sizes@ == self.sizes(),
    {
        &self.grid_sizes
    }

    /// The step counts of the suite.
    pub fn step_counts(&self) -> (steps: &Vec<usize>)
        ensures
            steps@ == self.steps(),
    {
        &self.step_counts
    }

    /// The runs of the suite in their order: for every grid size, for every
    /// step count, every pattern.
    pub fn cases(&self) -> (cases: Vec<BenchmarkCase>)
        ensures
            cases@.len() == self.sizes().len() * self.steps().len() * self.patterns().len(),
            forall|i: int, j: int, k: int|
                0 <= i < self.sizes().len() && 0 <= j < self.steps().len() && 0 <= k
                    < self.patterns().len() ==> cases@[(i * self.steps().len() + j)
                    * self.patterns().len() + k] == #[trigger] self.case_at(i, j, k),
    {
        let sizes: usize = self.grid_sizes.len();
        let steps: usize = self.step_counts.len();
        let patterns: usize = self.test_patterns.len();
        let mut cases: Vec<BenchmarkCase> = Vec::new();
        let mut i: usize = 0;
        proof {
            assert((0 * steps + 0) * patterns + 0 == 0) by (nonlinear_arith);
        }
        while i < sizes
            invariant
                i <= sizes,
                sizes == self.sizes().len(),
                steps == self.steps().len(),
                patterns == self.patterns().len(),
                cases@.len() == (i * steps + 0) * patterns + 0,
                forall|a: int, b: int, c: int|
                    0 <= a < i && 0 <= b < steps && 0 <= c < patterns ==> cases@[(a * steps + b)
                        * patterns + c] == #[trigger] self.case_at(a, b, c),
            decreases sizes - i,
        {
            let mut j: usize = 0;
            while j < steps
                invariant
                    i < sizes,
                    j <= steps,
                    sizes == self.sizes().len(),
                    steps == self.steps().len(),
                    patterns == self.patterns().len(),
                    cases@.len() == (i * steps + j) * patterns + 0,
                    forall|a: int, b: int, c: int|
                        0 <= a && 0 <= b < steps && 0 <= c < patterns && (a < i || (a == i && b
                            < j)) ==> cases@[(a * steps + b) * patterns + c]
                            == #[trigger] self.case_at(a, b, c),
                decreases steps - j,
            {
                let mut k: usize = 0;
                while k < patterns
                    invariant
                        i < sizes,
                        j < steps,
                        k <= patterns,
                        sizes == self.sizes().len(),
                        steps == self.steps().len(),
                        patterns == self.patterns().len(),
                        cases@.len() == (i * steps + j) * patterns + k,
                        forall|a: int, b: int, c: int|
                            0 <= a && 0 <= b < steps && 0 <= c < patterns && (a < i || (a == i && (b
                                < j || (b == j && c < k)))) ==> cases@[(a * steps + b) * patterns
                                + c] == #[trigger] self.case_at(a, b, c),
                    decreases patterns - k,
                {
                    let ghost before = cases@;
                    cases.push(
                        BenchmarkCase {
                            pattern: k,
                            width: self.grid_sizes[i].0,
                            height: self.grid_sizes[i].1,
                            steps: self.step_counts[j],
                        },
                    );
                    proof {
                        assert forall|a: int, b: int, c: int|
                            0 <= a && 0 <= b < steps && 0 <= c < patterns && (a < i || (a == i && (b
                                < j || (b == j && c < k + 1)))) implies cases@[(a * steps + b)
                            * patterns + c] == #[trigger] self.case_at(a, b, c) by {
                            if a == i && b == j && c == k {
                            } else {
                                lemma_case_order(
                                    steps as int,
                                    patterns as int,
                                    i as int,
                                    j as int,
                                    k as int,
                                    a,
                                    b,
                                    c,
                                );
                                assert(before[(a * steps + b) * patterns + c] == self.case_at(
                                    a,
                                    b,
                                    c,
                                ));
                            }
                        }
                    }
                    k += 1;
                }
                proof {
                    assert((i * steps + (j + 1)) * patterns + 0 == (i * steps + j) * patterns
                        + patterns) by (nonlinear_arith);
                }
                j += 1;
            }
            proof {
                assert(((i + 1) * steps + 0) * patterns + 0 == (i * steps + steps) * patterns + 0)
                    by (nonlinear_arith);
            }
            i += 1;
        }
        proof {
            assert((sizes * steps + 0) * patterns + 0 == sizes * steps * patterns)
                by (nonlinear_arith);
        }
        cases
    }

    /// A grid of the given size with the pattern's picture at its centre.
    pub fn create_test_grid(&self, pattern: &TestPattern, width: usize, height: usize) -> (result:
        Result<StandardGrid, String>)
        requires
            width * height <= usize::MAX,
        ensures
            result matches Ok(grid) && grid.wf() && grid.board() == centered_board(
                pattern@.lines,
                width as nat,
                height as nat,
            ),
    {
        let ghost lines = pattern@.lines;
        let mut grid = StandardGrid::new(width, height);
        let pattern_height: usize = pattern.pattern.len();
        if pattern_height == 0 {
            return Ok(grid);
        }
        let pattern_width: usize = pattern.pattern[0].as_str().as_bytes().len();
        assert(pattern.pattern@[0]@ == lines[0]);
        assert(pattern_width == encode_utf8(lines[0]).len());
        if pattern_width == 0 {
            return Ok(grid);
        }
        let start_row: usize = (if height >= pattern_height {
            height - pattern_height
        } else {
            0
        }) / 2;
        let start_col: usize = (if width >= pattern_width {
            width - pattern_width
        } else {
            0
        }) / 2;
        proof {
            lemma_empty_board(width as nat, height as nat);
        }
        let mut row_offset: usize = 0;
        while row_offset < pattern_height
            invariant
                row_offset <= pattern_height,
                pattern_height == pattern.pattern@.len(),
                lines == pattern@.lines,
                lines.len() == pattern_height,
                start_row == top_row(lines, height as nat),
                start_col == west_col(lines, width as nat),
                grid.wf(),
                grid.board().wf(),
                grid.board().width == width,
                grid.board().height() == height,
                forall|r: int, c: int|
                    #[trigger] grid.board().alive(r, c) == (grid.board().contains(r, c) && r
                        - start_row < row_offset && picture_alive(
                        lines,
                        width as nat,
                        height as nat,
                        r,
                        c,
                    )),
            decreases pattern_height - row_offset,
        {
            let line: &str = pattern.pattern[row_offset].as_str();
            let len: usize = line.unicode_len();
            assert(line@ == lines[row_offset as int]);
            let mut col_offset: usize = 0;
            while col_offset < len
                invariant
                    row_offset < pattern_height,
                    col_offset <= len,
                    len == line@.len(),
                    line@ == lines[row_offset as int],
                    pattern_height == pattern.pattern@.len(),
                    lines == pattern@.lines,
                    lines.len() == pattern_height,
                    start_row == top_row(lines, height as nat),
                    start_col == west_col(lines, width as nat),
                    grid.wf(),
                    grid.board().wf(),
                    grid.board().width == width,
                    grid.board().height() == height,
                    forall|r: int, c: int|
                        #[trigger] grid.board().alive(r, c) == (grid.board().contains(r, c) && (r
                            - start_row < row_offset || (r - start_row == row_offset && c
                            - start_col < col_offset)) && picture_alive(
                            lines,
                            width as nat,
                            height as nat,
                            r,
                            c,
                        )),
                decreases len - col_offset,
            {
                if start_row < height && row_offset < height - start_row && start_col < width
                    && col_offset < width - start_col {
                    let grid_row: usize = start_row + row_offset;
                    let grid_col: usize = start_col + col_offset;
                    let ch: char = line.get_char(col_offset);
                    let alive: bool = ch == '#' || ch == '█' || ch == '*' || ch == 'O';
                    let ghost before = grid.board();
                    grid.set_cell(grid_row, grid_col, alive);
                    proof {
                        lemma_with_cell(
                            before,
                            grid_row as int,
                            grid_col as int,
                            alive,
                        );
                    }
                }
                col_offset += 1;
            }
            row_offset += 1;
        }
        proof {
            lemma_board_ext(grid.board(), centered_board(lines, width as nat, height as nat));
        }
        Ok(grid)
    }

    /// The patterns of the full suite.
    pub fn default_patterns() -> (patterns: Vec<TestPattern>)
        ensures
            patterns@.len() == 4,
            patterns@[0]@ == blinker_view(),
            patterns@[1]@ == block_view(),
            patterns@[2]@ == glider_view(),
            patterns@[3]@ == random_view(),
    {
        vec![
            Self::blinker_pattern(),
            Self::block_pattern(),
            Self::glider_pattern(),
            Self::random_pattern(),
        ]
    }

    /// The blinker.
    pub fn blinker_pattern() -> (pattern: TestPattern)
        ensures
            pattern@ == blinker_view(),
    {
        let pattern = TestPattern {
            name: owned("blinker"),
            description: owned("Simple period-2 oscillator"),
            pattern: vec![owned("..."), owned("###"), owned("...")],
        };
        proof {
            assert(pattern@.lines =~= blinker_view().lines);
        }
        pattern
    }

    /// The block.
    pub fn block_pattern() -> (pattern: TestPattern)
        ensures
            pattern@ == block_view(),
    {
        let pattern = TestPattern {
            name: owned("block"),
            description: owned("Simple still life"),
            pattern: vec![owned("...."), owned(".##."), owned(".##."), owned("....")],
        };
        proof {
            assert(pattern@.lines =~= block_view().lines);
        }
        pattern
    }

    /// The glider.
    pub fn glider_pattern() -> (pattern: TestPattern)
        ensures
            pattern@ == glider_view(),
    {
        let pattern = TestPattern {
            name: owned("glider"),
            description: owned("Simple moving spaceship"),
            pattern: vec![
                owned("....."),
                owned("..#.."),
                owned("...#."),
                owned(".###."),
                owned("....."),
            ],
        };
        proof {
            assert(pattern@.lines =~= glider_view().lines);
        }
        pattern
    }

    /// The scattered pattern.
    pub fn random_pattern() -> (pattern: TestPattern)
        ensures
            pattern@ == random_view(),
    {
        let pattern = TestPattern {
            name: owned("random"),
            description: owned("Random pattern for stress testing"),
            pattern: vec![
                owned("##.#.##.#"),
                owned(".#..#..#."),
                owned("#.#.#.#.#"),
                owned("..#...#.."),
                owned("#.#.#.#.#"),
                owned(".#..#..#."),
                owned("##.#.##.#"),
            ],
        };
        proof {
            assert(pattern@.lines =~= random_view().lines);
        }
        pattern
    }

    /// The name of a run of the suite on an engine of the given name.
    pub fn case_name(&self, engine_name: &str, case: &BenchmarkCase) -> (name: String)
        requires
            case.pattern < self.patterns().len(),
        ensures
            name@ == case_name_text(
                engine_name@,
                self.patterns()[case.pattern as int].name,
                case.width as nat,
                case.height as nat,
                case.steps as nat,
            ),
    {
        let mut name: String = owned(engine_name);
        name.append("-");
        name.append(self.test_patterns[case.pattern].name.as_str());
        name.append("-");
        push_decimal(&mut name, case.width);
        name.append("x");
        push_decimal(&mut name, case.height);
        name.append("-");
        push_decimal(&mut name, case.steps);
        name
    }

    /// Gives the engine the starting generation of a run: the run's pattern
    /// at the centre of a grid of the run's size.
    pub fn prepare<E: GameOfLifeEngine>(&self, engine: &mut E, case: &BenchmarkCase)
        requires
            old(engine).wf(),
            case.pattern < self.patterns().len(),
            case.width * case.height <= usize::MAX,
        ensures
            final(engine).wf(),
            final(engine).name() == old(engine).name(),
            ({
                let start = centered_board(
                    self.patterns()[case.pattern as int].lines,
                    case.width as nat,
                    case.height as nat,
                );
                &&& final(engine).board() == start || final(engine).board() == start.clipped(
                    old(engine).board().width,
                    old(engine).board().height(),
                )
                &&& case.width == old(engine).board().width && case.height == old(
                    engine,
                ).board().height() ==> final(engine).board() == start
            }),
    {
        match self.create_test_grid(&self.test_patterns[case.pattern], case.width, case.height) {
            Ok(grid) => {
                engine.set_grid(&grid);
            },
            Err(_) => {},
        }
    }

    /// What a run has to show for itself once the engine has made its steps.
    pub fn summarize<E: GameOfLifeEngine>(&self, engine: &E, case: &BenchmarkCase) -> (counts:
        BenchmarkCount)
        requires
            engine.wf(),
            case.pattern < self.patterns().len(),
        ensures
            counts.engine_name@ == case_name_text(
                engine.name(),
                self.patterns()[case.pattern as int].name,
                case.width as nat,
                case.height as nat,
                case.steps as nat,
            ),
            counts.steps == case.steps,
            counts.total_cells == engine.board().width * engine.board().height(),
            counts.live_cells == engine.board().live_count(),
    {
        let info = engine.benchmark_info();
        let name: String = self.case_name(info.name.as_str(), case);
        engine_counts(engine, name, case.steps)
    }
}

impl Default for BenchmarkSuite {
    fn default() -> (suite: Self)
        ensures
            suite.patterns() == seq![blinker_view(), block_view(), glider_view(), random_view()],
            suite.sizes() == seq![
                (50usize, 50usize),
                (100usize, 100usize),
                (200usize, 200usize),
                (500usize, 500usize),
            ],
            suite.steps() == seq![10usize, 50usize, 100usize, 500usize],
    {
        Self::new()
    }
}

} // verus!
