use light_grid::command::ParseError;
use light_grid::solve::{solve, LineError};

fn input(lines: &[&str]) -> Vec<String> {
    let mut out = Vec::new();
    for line in lines {
        out.push(line.to_string());
    }
    out
}

#[test]
fn solve_turn_on_toggle_turn_off() {
    let lines = input(&[
        "turn on 0,0 through 2,2",
        "toggle 0,0 through 0,0",
        "turn off 0,0 through 0,0",
    ]);
    assert_eq!(solve(&lines), Ok(10));
}

#[test]
fn solve_turn_on_a_thousand_by_a_thousand() {
    let lines = input(&["turn on 0,0 through 999,999"]);
    assert_eq!(solve(&lines), Ok(1_000_000));
}

#[test]
fn solve_toggle_a_thousand_by_a_thousand() {
    let lines = input(&["toggle 0,0 through 999,999"]);
    assert_eq!(solve(&lines), Ok(2_000_000));
}

#[test]
fn solve_of_no_lines_is_zero() {
    assert_eq!(solve(&Vec::new()), Ok(0));
}

#[test]
fn solve_turn_off_in_the_dark_is_zero() {
    let lines = input(&["turn off 0,0 through 99,99", "turn off 0,0 through 99,99"]);
    assert_eq!(solve(&lines), Ok(0));
}

#[test]
fn solve_applies_the_lines_in_order() {
    let dark_first = input(&["turn off 0,0 through 0,0", "turn on 0,0 through 0,0"]);
    assert_eq!(solve(&dark_first), Ok(1));
    let lit_first = input(&["turn on 0,0 through 0,0", "turn off 0,0 through 0,0"]);
    assert_eq!(solve(&lit_first), Ok(0));
}

#[test]
fn solve_reports_the_first_line_that_is_no_command() {
    let lines = input(&[
        "turn on 0,0 through 2,2",
        "dim 0,0 through 2,2",
        "toggle 0,0 through",
    ]);
    assert_eq!(solve(&lines), Err(LineError { line: 1, error: ParseError::InvalidInstruction }));
}

#[test]
fn solve_reports_each_kind_of_error_with_its_line() {
    assert_eq!(
        solve(&input(&["toggle"])),
        Err(LineError { line: 0, error: ParseError::MissingCoordinates })
    );
    assert_eq!(
        solve(&input(&["toggle 0,0 through 1,1", "toggle 0,0 through 1"])),
        Err(LineError { line: 1, error: ParseError::InvalidCoordinate })
    );
    assert_eq!(
        solve(&input(&["toggle 0,0 through 1,1", "toggle 0,0 through 1,1", "toggle 0,0 through 1,z"])),
        Err(LineError { line: 2, error: ParseError::InvalidNumber })
    );
    assert_eq!(
        solve(&input(&["toggle 0,0 through 1,1", ""])),
        Err(LineError { line: 1, error: ParseError::InvalidInstruction })
    );
}
