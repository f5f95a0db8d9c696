use light_grid::dispatch::{
    announce, run_all_days, run_day, run_selector, write_answer, Solver, FIRST_DAY, LAST_DAY,
};

#[test]
fn run_day_finds_the_light_grid_on_day_six() {
    assert_eq!(run_day("6"), Some(Solver::LightGrid));
}

#[test]
fn run_day_of_a_day_without_solver_is_not_implemented() {
    assert_eq!(run_day("7"), None);
    assert_eq!(run_day("1"), None);
    assert_eq!(run_day("25"), None);
    assert_eq!(run_day("26"), None);
    assert_eq!(run_day("0"), None);
    assert_eq!(run_day("60"), None);
    assert_eq!(run_day("66"), None);
}

#[test]
fn run_day_takes_the_name_of_a_day_as_it_is_written() {
    assert_eq!(run_day(""), None);
    assert_eq!(run_day("06"), None);
    assert_eq!(run_day("+6"), None);
    assert_eq!(run_day(" 6"), None);
    assert_eq!(run_day("6 "), None);
    assert_eq!(run_day("six"), None);
}

#[test]
fn run_selector_skips_three_characters() {
    assert_eq!(run_selector("day6"), Some(Solver::LightGrid));
    assert_eq!(run_selector("Day6"), Some(Solver::LightGrid));
    assert_eq!(run_selector("xyz6"), Some(Solver::LightGrid));
    assert_eq!(run_selector("day7"), None);
    assert_eq!(run_selector("day06"), None);
    assert_eq!(run_selector("day"), None);
    assert_eq!(run_selector("day 6"), None);
    assert_eq!(run_selector("6"), None);
}

#[test]
fn run_selector_of_a_short_selector_is_not_implemented() {
    assert_eq!(run_selector(""), None);
    assert_eq!(run_selector("d"), None);
    assert_eq!(run_selector("da"), None);
    assert_eq!(run_selector("66"), None);
}

#[test]
fn run_all_days_goes_through_the_calendar() {
    let plan = run_all_days();
    assert_eq!(plan.len(), 25);
    assert_eq!(plan.len() as u32, LAST_DAY - FIRST_DAY + 1);
    let mut i = 0;
    while i < plan.len() {
        let day = FIRST_DAY as usize + i;
        assert_eq!(plan[i], if day == 6 { Some(Solver::LightGrid) } else { None });
        assert_eq!(plan[i], run_day(&day.to_string()));
        i += 1;
    }
}

#[test]
fn the_solver_knows_its_day_and_its_input() {
    assert_eq!(Solver::LightGrid.day(), 6);
    assert_eq!(Solver::LightGrid.part(), 2);
    assert_eq!(Solver::LightGrid.input_path(), "input/day6p1.txt");
    assert_eq!(run_day(&Solver::LightGrid.day().to_string()), Some(Solver::LightGrid));
}

#[test]
fn a_day_without_solver_is_announced_as_not_implemented() {
    assert_eq!(announce(None), "Day not implemented");
    assert_eq!(announce(run_day("7")), "Day not implemented");
    assert_eq!(announce(run_selector("day12")), "Day not implemented");
}

#[test]
fn a_day_with_a_solver_is_announced_by_its_number() {
    assert_eq!(announce(Some(Solver::LightGrid)), "Day 6:");
    assert_eq!(announce(run_day("6")), "Day 6:");
}

#[test]
fn the_answer_is_written_after_the_part() {
    assert_eq!(write_answer(Solver::LightGrid, 10), "Part 2: 10");
    assert_eq!(write_answer(Solver::LightGrid, 0), "Part 2: 0");
    assert_eq!(write_answer(Solver::LightGrid, 1_000_000), "Part 2: 1000000");
    assert_eq!(
        write_answer(Solver::LightGrid, u128::MAX),
        "Part 2: 340282366920938463463374607431768211455"
    );
}

#[test]
fn all_days_announce_one_solver_and_the_rest_as_not_implemented() {
    let mut implemented = 0;
    let mut missing = 0;
    for solver in run_all_days() {
        if announce(solver) == "Day not implemented" {
            missing += 1;
        } else {
            implemented += 1;
        }
    }
    assert_eq!(implemented, 1);
    assert_eq!(missing, 24);
}
