//! The puzzle as a whole: every line of the input is a command, the
//! commands are applied in order to a grid without lights, and the answer is
//! the total brightness of the grid that results.

use crate::command::{command, parse_instructions, Command, ParseError};
use crate::grid::{apply_instructions, total_brightness, LightGrid};
use crate::model::{adjust, apply, brightness, covers, total};
use vstd::prelude::*;

verus! {

/// A line that is not a command.
#[derive(Clone, Copy, Debug, PartialEq, Eq)]
pub struct LineError {
    /// The position of the line in the input, counted from zero.
    pub line: usize,
    /// What is wrong with the line.
    pub error: ParseError,
}

/// The grid after the first `n` lines, or the first of them that is not a
/// command.
pub open spec fn grid_after(lines: Seq<String>, n: int) -> Result<Map<(int, int), nat>, LineError>
    decreases n,
{
    if n <= 0 {
        Ok(Map::empty())
    } else {
        match grid_after(lines, n - 1) {
            Err(e) => Err(e),
            Ok(lights) => match command(lines[n - 1]@) {
                Err(error) => Err(LineError { line: (n - 1) as usize, error }),
                Ok(c) => Ok(apply(lights, c)),
            },
        }
    }
}

/// The answer to the puzzle for `lines`: the total brightness after all of
/// them, or the first line that is not a command.
pub open spec fn answer(lines: Seq<String>) -> Result<nat, LineError> {
    match grid_after(lines, lines.len() as int) {
        Err(e) => Err(e),
        Ok(lights) => Ok(total(lights)),
    }
}

/// One command raises the brightness of a light by two at most.
pub proof fn lemma_apply_raises_by_two(lights: Map<(int, int), nat>, c: Command, at: (int, int))
    ensures
        brightness(apply(lights, c), at) <= brightness(lights, at) + 2,
{
}

/// Solves the puzzle for the lines of an input.
pub fn solve(lines: &Vec<String>) -> (result: Result<u128, LineError>)
    requires
        2 * lines.len() <= usize::MAX,
    ensures
        answer(lines@) == match result {
            Ok(sum) => Ok::<nat, LineError>(sum as nat),
            Err(e) => Err(e),
        },
{
    let mut lights = LightGrid::new();
    let mut i: usize = 0;
    while i < lines.len()
        invariant
            i <= lines.len(),
            2 * lines.len() <= usize::MAX,
            grid_after(lines@, i as int) == Ok::<Map<(int, int), nat>, LineError>(lights@),
            forall|at: (int, int)| brightness(lights@, at) <= 2 * i,
        decreases lines.len() - i,
    {
        match parse_instructions(lines[i].as_str()) {
            Err(error) => {
                let e = LineError { line: i, error };
                proof {
                    lemma_error_stays(lines@, i + 1, lines.len() as int);
                }
                return Err(e);
            },
            Ok(c) => {
                proof {
                    let before = lights@;
                    assert forall|at: (int, int)| brightness(apply(before, c), at) <= 2 * (i + 1) by {
                        lemma_apply_raises_by_two(before, c, at);
                    }
                    assert forall|at: (int, int)| #[trigger] covers(c, at) implies adjust(
                        c.instruction,
                        brightness(before, at),
                    ) <= usize::MAX by {
                        lemma_apply_raises_by_two(before, c, at);
                    }
                }
                apply_instructions(&mut lights, &c);
            },
        }
        i += 1;
    }
    Ok(total_brightness(&lights))
}

/// Once a line has failed, the lines after it change nothing.
pub proof fn lemma_error_stays(lines: Seq<String>, n: int, m: int)
    requires
        0 <= n <= m,
        grid_after(lines, n) is Err,
    ensures
        grid_after(lines, m) == grid_after(lines, n),
    decreases m - n,
{
    if n < m {
        lemma_error_stays(lines, n, m - 1);
    }
}

} // verus!
