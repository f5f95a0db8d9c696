use light_grid::command::{parse_coordinate, parse_instructions, Command, Instruction, ParseError};

#[test]
fn parse_coordinate_reads_two_numbers() {
    assert_eq!(parse_coordinate("0,0"), Ok((0, 0)));
    assert_eq!(parse_coordinate("999,999"), Ok((999, 999)));
    assert_eq!(parse_coordinate("12,345"), Ok((12, 345)));
    assert_eq!(parse_coordinate("+1,002"), Ok((1, 2)));
}

#[test]
fn parse_coordinate_wants_exactly_two_fields() {
    assert_eq!(parse_coordinate(""), Err(ParseError::InvalidCoordinate));
    assert_eq!(parse_coordinate("12"), Err(ParseError::InvalidCoordinate));
    assert_eq!(parse_coordinate("1,2,3"), Err(ParseError::InvalidCoordinate));
    assert_eq!(parse_coordinate("through"), Err(ParseError::InvalidCoordinate));
    assert_eq!(parse_coordinate("a,b,c"), Err(ParseError::InvalidCoordinate));
    assert_eq!(parse_coordinate(",,"), Err(ParseError::InvalidCoordinate));
}

#[test]
fn parse_coordinate_wants_numbers_in_both_fields() {
    assert_eq!(parse_coordinate(","), Err(ParseError::InvalidNumber));
    assert_eq!(parse_coordinate("1,"), Err(ParseError::InvalidNumber));
    assert_eq!(parse_coordinate(",2"), Err(ParseError::InvalidNumber));
    assert_eq!(parse_coordinate("a,2"), Err(ParseError::InvalidNumber));
    assert_eq!(parse_coordinate("1,b"), Err(ParseError::InvalidNumber));
    assert_eq!(parse_coordinate("-1,2"), Err(ParseError::InvalidNumber));
    assert_eq!(parse_coordinate("1,-2"), Err(ParseError::InvalidNumber));
    assert_eq!(parse_coordinate("1.5,2"), Err(ParseError::InvalidNumber));
    assert_eq!(
        parse_coordinate("340282366920938463463374607431768211456,0"),
        Err(ParseError::InvalidNumber)
    );
}

#[test]
fn parse_instructions_reads_turn_on() {
    assert_eq!(
        parse_instructions("turn on 0,0 through 2,2"),
        Ok(Command { instruction: Instruction::TurnOn, start: (0, 0), end: (2, 2) })
    );
}

#[test]
fn parse_instructions_reads_turn_off() {
    assert_eq!(
        parse_instructions("turn off 499,499 through 500,500"),
        Ok(Command { instruction: Instruction::TurnOff, start: (499, 499), end: (500, 500) })
    );
}

#[test]
fn parse_instructions_reads_toggle() {
    assert_eq!(
        parse_instructions("toggle 0,0 through 999,0"),
        Ok(Command { instruction: Instruction::Toggle, start: (0, 0), end: (999, 0) })
    );
}

#[test]
fn parse_instructions_splits_at_any_whitespace() {
    assert_eq!(
        parse_instructions("  turn\ton   1,2 through\u{A0}3,4 "),
        Ok(Command { instruction: Instruction::TurnOn, start: (1, 2), end: (3, 4) })
    );
}

#[test]
fn parse_instructions_keeps_a_start_beyond_the_end() {
    assert_eq!(
        parse_instructions("toggle 5,5 through 1,1"),
        Ok(Command { instruction: Instruction::Toggle, start: (5, 5), end: (1, 1) })
    );
}

#[test]
fn parse_instructions_takes_the_last_word_as_the_end() {
    assert_eq!(
        parse_instructions("toggle 1,2 3,4"),
        Ok(Command { instruction: Instruction::Toggle, start: (1, 2), end: (3, 4) })
    );
    assert_eq!(
        parse_instructions("turn on 1,2 to 3,4 and 5,6"),
        Ok(Command { instruction: Instruction::TurnOn, start: (1, 2), end: (5, 6) })
    );
    assert_eq!(
        parse_instructions("toggle 7,8"),
        Ok(Command { instruction: Instruction::Toggle, start: (7, 8), end: (7, 8) })
    );
}

#[test]
fn parse_instructions_refuses_an_unknown_instruction() {
    assert_eq!(parse_instructions(""), Err(ParseError::InvalidInstruction));
    assert_eq!(parse_instructions("   "), Err(ParseError::InvalidInstruction));
    assert_eq!(parse_instructions("turn"), Err(ParseError::InvalidInstruction));
    assert_eq!(
        parse_instructions("turn up 0,0 through 1,1"),
        Err(ParseError::InvalidInstruction)
    );
    assert_eq!(
        parse_instructions("switch 0,0 through 1,1"),
        Err(ParseError::InvalidInstruction)
    );
    assert_eq!(
        parse_instructions("Toggle 0,0 through 1,1"),
        Err(ParseError::InvalidInstruction)
    );
    assert_eq!(parse_instructions("on 0,0 through 1,1"), Err(ParseError::InvalidInstruction));
    assert_eq!(parse_instructions("0,0 through 1,1"), Err(ParseError::InvalidInstruction));
}

#[test]
fn parse_instructions_misses_coordinates_after_a_bare_instruction() {
    assert_eq!(parse_instructions("toggle"), Err(ParseError::MissingCoordinates));
    assert_eq!(parse_instructions("turn on"), Err(ParseError::MissingCoordinates));
    assert_eq!(parse_instructions(" turn  off "), Err(ParseError::MissingCoordinates));
}

#[test]
fn parse_instructions_reports_a_coordinate_without_comma() {
    assert_eq!(
        parse_instructions("turn on 00 through 2,2"),
        Err(ParseError::InvalidCoordinate)
    );
    assert_eq!(
        parse_instructions("turn on 0,0 through 2,2,2"),
        Err(ParseError::InvalidCoordinate)
    );
    assert_eq!(parse_instructions("toggle 0,0 through"), Err(ParseError::InvalidCoordinate));
    assert_eq!(parse_instructions("turn on through 1,1"), Err(ParseError::InvalidCoordinate));
}

#[test]
fn parse_instructions_reports_a_field_that_is_no_number() {
    assert_eq!(parse_instructions("turn on x,0 through 2,2"), Err(ParseError::InvalidNumber));
    assert_eq!(parse_instructions("turn on 0,0 through 2,y"), Err(ParseError::InvalidNumber));
    assert_eq!(parse_instructions("toggle -1,0 through 2,2"), Err(ParseError::InvalidNumber));
    assert_eq!(parse_instructions("toggle 0,0 through ,"), Err(ParseError::InvalidNumber));
}

#[test]
fn parse_instructions_reports_the_start_before_the_end() {
    assert_eq!(parse_instructions("toggle a,b through 1"), Err(ParseError::InvalidNumber));
    assert_eq!(parse_instructions("toggle 1 through a,b"), Err(ParseError::InvalidCoordinate));
}

#[test]
fn each_error_says_what_is_wrong() {
    assert_eq!(ParseError::InvalidInstruction.message(), "Invalid instruction");
    assert_eq!(ParseError::MissingCoordinates.message(), "Missing coordinates");
    assert_eq!(ParseError::InvalidCoordinate.message(), "Invalid coordinate");
    assert_eq!(ParseError::InvalidNumber.message(), "Invalid number");
}
