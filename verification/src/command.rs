//! Commands and their textual form: an instruction, then the two corners of
//! a rectangle, as in `turn on 0,0 through 2,2`.

use crate::text::{fields, number, parse_number, same_text, split_fields, split_words, views, words};
use vstd::prelude::*;

verus! {

/// What a command does to each light of its rectangle.
#[derive(Clone, Copy, Debug, PartialEq, Eq)]
pub enum Instruction {
    /// Raise the brightness by one.
    TurnOn,
    /// Lower the brightness by one, but not below zero.
    TurnOff,
    /// Raise the brightness by two.
    Toggle,
}

/// An instruction and the rectangle of lights it applies to, both corners
/// included.
#[derive(Clone, Copy, Debug, PartialEq, Eq)]
pub struct Command {
    pub instruction: Instruction,
    pub start: (usize, usize),
    pub end: (usize, usize),
}

/// Why a line is not a command.
#[derive(Clone, Copy, Debug, PartialEq, Eq)]
pub enum ParseError {
    /// The line starts with none of `toggle`, `turn on` and `turn off`.
    InvalidInstruction,
    /// No word follows the instruction.
    MissingCoordinates,
    /// A coordinate does not consist of two fields with a comma between.
    InvalidCoordinate,
    /// A field of a coordinate is not a number that fits `usize`.
    InvalidNumber,
}

impl ParseError {
    /// The words that say what is wrong.
    pub open spec fn text(self) -> Seq<char> {
        match self {
            ParseError::InvalidInstruction => "Invalid instruction"@,
            ParseError::MissingCoordinates => "Missing coordinates"@,
            ParseError::InvalidCoordinate => "Invalid coordinate"@,
            ParseError::InvalidNumber => "Invalid number"@,
        }
    }

    /// Says in words what is wrong.
    pub fn message(self) -> (text: &'static str)
        ensures
            text@ == self.text(),
    {
        match self {
            ParseError::InvalidInstruction => "Invalid instruction",
            ParseError::MissingCoordinates => "Missing coordinates",
            ParseError::InvalidCoordinate => "Invalid coordinate",
            ParseError::InvalidNumber => "Invalid number",
        }
    }
}

/// The coordinate that `s` denotes: two numbers with one comma between.
pub open spec fn coordinate(s: Seq<char>) -> Result<(usize, usize), ParseError> {
    let parts = fields(s, ',');
    if parts.len() != 2 {
        Err(ParseError::InvalidCoordinate)
    } else {
        match (number(parts[0]), number(parts[1])) {
            (Some(x), Some(y)) => Ok((x, y)),
            _ => Err(ParseError::InvalidNumber),
        }
    }
}

/// Reads a coordinate of the form `x,y`.
pub fn parse_coordinate(string: &str) -> (result: Result<(usize, usize), ParseError>)
    ensures
        result == coordinate(string@),
{
    let parts = split_fields(string, ',');
    if parts.len() != 2 {
        return Err(ParseError::InvalidCoordinate);
    }
    assert(views(parts@)[0] == parts@[0]@ && views(parts@)[1] == parts@[1]@);
    match parse_number(parts[0]) {
        None => Err(ParseError::InvalidNumber),
        Some(x) => match parse_number(parts[1]) {
            None => Err(ParseError::InvalidNumber),
            Some(y) => Ok((x, y)),
        },
    }
}

/// The command that `instruction` makes with the coordinates among the
/// words `w`: the rectangle starts at word `at` and ends at the last word.
pub open spec fn ranged(instruction: Instruction, w: Seq<Seq<char>>, at: int) -> Result<
    Command,
    ParseError,
> {
    if w.len() <= at {
        Err(ParseError::MissingCoordinates)
    } else {
        match coordinate(w[at]) {
            Err(e) => Err(e),
            Ok(start) => match coordinate(w.last()) {
                Err(e) => Err(e),
                Ok(end) => Ok(Command { instruction, start, end }),
            },
        }
    }
}

/// The command that `line` denotes. The instruction is `toggle`, or `turn`
/// followed by `on` or `off`; the coordinate after it is where the
/// rectangle starts, and the last word of the line is where it ends.
pub open spec fn command(line: Seq<char>) -> Result<Command, ParseError> {
    let w = words(line);
    if w.len() >= 1 && w[0] == "toggle"@ {
        ranged(Instruction::Toggle, w, 1)
    } else if w.len() >= 2 && w[0] == "turn"@ && w[1] == "on"@ {
        ranged(Instruction::TurnOn, w, 2)
    } else if w.len() >= 2 && w[0] == "turn"@ && w[1] == "off"@ {
        ranged(Instruction::TurnOff, w, 2)
    } else {
        Err(ParseError::InvalidInstruction)
    }
}

/// Reads the coordinates of a command whose instruction is known.
fn parse_range(instruction: Instruction, words: &Vec<&str>, at: usize) -> (result: Result<
    Command,
    ParseError,
>)
    ensures
        result == ranged(instruction, views(words@), at as int),
{
    if words.len() <= at {
        return Err(ParseError::MissingCoordinates);
    }
    let last = words.len() - 1;
    assert(views(words@)[at as int] == words@[at as int]@);
    assert(views(words@).last() == words@[last as int]@);
    match parse_coordinate(words[at]) {
        Err(e) => Err(e),
        Ok(start) => match parse_coordinate(words[last]) {
            Err(e) => Err(e),
            Ok(end) => Ok(Command { instruction, start, end }),
        },
    }
}

/// Reads one line as a command.
pub fn parse_instructions(line: &str) -> (result: Result<Command, ParseError>)
    ensures
        result == command(line@),
{
    let words = split_words(line);
    if words.len() >= 1 {
        assert(views(words@)[0] == words@[0]@);
        if same_text(words[0], "toggle") {
            return parse_range(Instruction::Toggle, &words, 1);
        }
        if words.len() >= 2 && same_text(words[0], "turn") {
            assert(views(words@)[1] == words@[1]@);
            if same_text(words[1], "on") {
                return parse_range(Instruction::TurnOn, &words, 2);
            }
            if same_text(words[1], "off") {
                return parse_range(Instruction::TurnOff, &words, 2);
            }
        }
    }
    Err(ParseError::InvalidInstruction)
}

} // verus!
