//! The dispatcher: which solver a day has, which days run when none is
//! selected, and what is reported of a day.

use crate::text::{decimal, law_decimal_round_trip, same_text, to_decimal};
use vstd::prelude::*;

verus! {

/// The first day of the calendar.
pub const FIRST_DAY: u32 = 1;

/// The last day of the calendar.
pub const LAST_DAY: u32 = 25;

/// The puzzles that have a solver.
#[derive(Clone, Copy, Debug, PartialEq, Eq)]
pub enum Solver {
    /// The grid of lights, each with a brightness.
    LightGrid,
}

impl Solver {
    /// The day of the calendar that the puzzle belongs to.
    pub open spec fn day_number(self) -> nat {
        6
    }

    /// The part of its day that the puzzle is.
    pub open spec fn part_number(self) -> nat {
        2
    }

    /// The day of the calendar that the puzzle belongs to.
    pub fn day(self) -> (day: u32)
        ensures
            day == self.day_number(),
    {
        6
    }

    /// The part of its day that the puzzle is.
    pub fn part(self) -> (part: u32)
        ensures
            part == self.part_number(),
    {
        2
    }

    /// Where the input of the puzzle is kept.
    pub fn input_path(self) -> (path: &'static str)
        ensures
            path@ == "input/day6p1.txt"@,
    {
        "input/day6p1.txt"
    }
}

/// The solver of a day of the calendar.
pub open spec fn solver_for(day: nat) -> Option<Solver> {
    if day == Solver::LightGrid.day_number() {
        Some(Solver::LightGrid)
    } else {
        None
    }
}

/// The solver of the day that `day` names. A day is named by its number in
/// decimal digits, without a sign and without leading zeros.
pub open spec fn solver_of(day: Seq<char>) -> Option<Solver> {
    if day == decimal(Solver::LightGrid.day_number()) {
        Some(Solver::LightGrid)
    } else {
        None
    }
}

/// The name of a day leads to the solver of that day, and to none where
/// the day has none.
pub proof fn law_solver_of_day(day: nat)
    ensures
        solver_of(decimal(day)) == solver_for(day),
{
    law_decimal_round_trip(day);
    law_decimal_round_trip(Solver::LightGrid.day_number());
}

/// Finds the solver of the day that `day` names; `None` is a day that is
/// not implemented.
pub fn run_day(day: &str) -> (solver: Option<Solver>)
    ensures
        solver == solver_of(day@),
{
    proof {
        reveal_strlit("6");
        assert("6"@ =~= decimal(6));
    }
    if same_text(day, "6") {
        Some(Solver::LightGrid)
    } else {
        None
    }
}

/// The solver that a selector asks for. The name of the day follows the
/// first three characters of the selector, as in `day6`; a shorter selector
/// names no day.
pub open spec fn solver_of_selector(selector: Seq<char>) -> Option<Solver> {
    if selector.len() >= 3 {
        solver_of(selector.skip(3))
    } else {
        None
    }
}

/// Finds the solver that `selector` asks for.
pub fn run_selector(selector: &str) -> (solver: Option<Solver>)
    ensures
        solver == solver_of_selector(selector@),
{
    let n = selector.unicode_len();
    if n < 3 {
        None
    } else {
        let day = selector.substring_char(3, n);
        assert(day@ == selector@.skip(3));
        run_day(day)
    }
}

/// What there is to run when no day is selected: every day of the
/// calendar in order, each with its solver if it has one.
pub fn run_all_days() -> (plan: Vec<Option<Solver>>)
    ensures
        plan@.len() == LAST_DAY - FIRST_DAY + 1,
        forall|i: int|
            0 <= i < plan@.len() ==> #[trigger] plan@[i] == solver_for((FIRST_DAY + i) as nat),
{
    let mut plan: Vec<Option<Solver>> = Vec::new();
    let mut day: u32 = FIRST_DAY;
    while day <= LAST_DAY
        invariant
            FIRST_DAY <= day <= LAST_DAY + 1,
            plan@.len() == day - FIRST_DAY,
            forall|i: int|
                0 <= i < plan@.len() ==> #[trigger] plan@[i] == solver_for((FIRST_DAY + i) as nat),
        decreases LAST_DAY + 1 - day,
    {
        let name = to_decimal(day as u128);
        proof {
            law_solver_of_day(day as nat);
        }
        plan.push(run_day(name.as_str()));
        day += 1;
    }
    plan
}

/// The first line that is printed for a day: the day's number where it has
/// a solver, and that the day is not implemented where it has none.
pub open spec fn announcement(solver: Option<Solver>) -> Seq<char> {
    match solver {
        Some(solver) => "Day "@ + decimal(solver.day_number()) + ":"@,
        None => "Day not implemented"@,
    }
}

/// Writes the first line that is printed for a day.
pub fn announce(solver: Option<Solver>) -> (line: String)
    ensures
        line@ == announcement(solver),
{
    match solver {
        Some(solver) => {
            let mut line = "Day ".to_owned();
            line.append(to_decimal(solver.day() as u128).as_str());
            line.append(":");
            line
        },
        None => "Day not implemented".to_owned(),
    }
}

/// The line that gives the answer of a solver.
pub open spec fn answer_line(solver: Solver, answer: nat) -> Seq<char> {
    "Part "@ + decimal(solver.part_number()) + ": "@ + decimal(answer)
}

/// Writes the line that gives the answer of a solver.
pub fn write_answer(solver: Solver, answer: u128) -> (line: String)
    ensures
        line@ == answer_line(solver, answer as nat),
{
    let mut line = "Part ".to_owned();
    line.append(to_decimal(solver.part() as u128).as_str());
    line.append(": ");
    line.append(to_decimal(answer).as_str());
    line
}

} // verus!
