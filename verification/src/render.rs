//! A generation as text: one line per row, one character per cell.

use crate::engines::GameOfLifeEngine;
use vstd::prelude::*;

verus! {

/// A row as text: `alive` for a live cell, `dead` for a dead one.
pub open spec fn row_text(row: Seq<bool>, alive: char, dead: char) -> Seq<char> {
    Seq::new(
        row.len(),
        |col: int|
            if row[col] {
                alive
            } else {
                dead
            },
    )
}

/// Rows as text: every row is followed by a line feed.
pub open spec fn frame_text(rows: Seq<Seq<bool>>, alive: char, dead: char) -> Seq<char>
    decreases rows.len(),
{
    if rows.len() == 0 {
        Seq::empty()
    } else {
        frame_text(rows.drop_last(), alive, dead) + row_text(rows.last(), alive, dead).push('\n')
    }
}

/// The generation of an engine as text.
pub fn frame<E: GameOfLifeEngine>(engine: &E, alive: char, dead: char) -> (text: String)
    requires
        engine.wf(),
    ensures
        text@ == frame_text(engine.board().rows, alive, dead),
{
    let height: usize = engine.height();
    let width: usize = engine.width();
    let ghost rows = engine.board().rows;
    let mut text: String = String::new();
    let mut row: usize = 0;
    while row < height
        invariant
            engine.wf(),
            rows == engine.board().rows,
            engine.board().wf(),
            height == rows.len(),
            width == engine.board().width,
            row <= height,
            text@ == frame_text(rows.take(row as int), alive, dead),
        decreases height - row,
    {
        let ghost before = text@;
        let mut col: usize = 0;
        while col < width
            invariant
                engine.wf(),
                rows == engine.board().rows,
                engine.board().wf(),
                height == rows.len(),
                width == engine.board().width,
                row < height,
                col <= width,
                text@ == before + row_text(rows[row as int].take(col as int), alive, dead),
            decreases width - col,
        {
            let cell: bool = engine.get_cell(row, col);
            text.push(
                if cell {
                    alive
                } else {
                    dead
                },
            );
            proof {
                assert(rows[row as int].take(col + 1) =~= rows[row as int].take(col as int).push(
                    rows[row as int][col as int],
                ));
                assert(text@ =~= before + row_text(rows[row as int].take(col + 1), alive, dead));
            }
            col += 1;
        }
        text.push('\n');
        proof {
            assert(rows[row as int].take(col as int) =~= rows[row as int]);
            assert(rows.take(row + 1).drop_last() =~= rows.take(row as int));
            assert(text@ =~= frame_text(rows.take(row + 1), alive, dead));
        }
        row += 1;
    }
    proof {
        assert(rows.take(row as int) =~= rows);
    }
    text
}

} // verus!
