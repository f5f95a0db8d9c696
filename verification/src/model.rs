//! The mathematical model of the grid: a map from the coordinates of the
//! lights that commands have reached to their brightness, and what a
//! command does to such a map.

use crate::command::{Command, Instruction};
use vstd::prelude::*;

verus! {

/// Whether the rectangle of `command` holds the coordinate `c`.
pub open spec fn covers(command: Command, c: (int, int)) -> bool {
    &&& command.start.0 <= c.0 <= command.end.0
    &&& command.start.1 <= c.1 <= command.end.1
}

/// The coordinates that the rectangle of `command` holds.
pub open spec fn rectangle(command: Command) -> Set<(int, int)> {
    Set::new(|c: (int, int)| covers(command, c))
}

/// The brightness of the light at `c`: zero where the grid holds no light.
pub open spec fn brightness(lights: Map<(int, int), nat>, c: (int, int)) -> nat {
    if lights.contains_key(c) {
        lights[c]
    } else {
        0
    }
}

/// The brightness that `instruction` makes of the brightness `b`.
pub open spec fn adjust(instruction: Instruction, b: nat) -> nat {
    match instruction {
        Instruction::TurnOn => b + 1,
        Instruction::TurnOff => if b >= 1 {
            (b - 1) as nat
        } else {
            0
        },
        Instruction::Toggle => b + 2,
    }
}

/// The grid after `command`. Every light of the rectangle is in the grid
/// afterwards, adjusted from the brightness it had, or from zero where the
/// grid did not hold it. Nothing else changes.
pub open spec fn apply(lights: Map<(int, int), nat>, command: Command) -> Map<(int, int), nat> {
    Map::new(
        |c: (int, int)| lights.contains_key(c) || covers(command, c),
        |c: (int, int)|
            if covers(command, c) {
                adjust(command.instruction, brightness(lights, c))
            } else {
                lights[c]
            },
    )
}

/// The grid after `command` has been applied `n` times in a row.
pub open spec fn apply_times(lights: Map<(int, int), nat>, command: Command, n: nat) -> Map<
    (int, int),
    nat,
>
    decreases n,
{
    if n == 0 {
        lights
    } else {
        apply(apply_times(lights, command, (n - 1) as nat), command)
    }
}

/// The sum of the brightness of all lights of a finite grid.
pub open spec fn total(lights: Map<(int, int), nat>) -> nat
    decreases lights.dom().len(),
    when lights.dom().finite()
{
    if lights.dom().len() == 0 {
        0
    } else {
        let c = lights.dom().choose();
        lights[c] + total(lights.remove(c))
    }
}

/// The total is the brightness of any one light plus the total of the
/// others: the order in which the lights are summed does not matter.
pub proof fn lemma_total_remove(lights: Map<(int, int), nat>, c: (int, int))
    requires
        lights.dom().finite(),
        lights.contains_key(c),
    ensures
        total(lights) == lights[c] + total(lights.remove(c)),
    decreases lights.dom().len(),
{
    let d = lights.dom().choose();
    if d != c {
        lemma_total_remove(lights.remove(d), c);
        lemma_total_remove(lights.remove(c), d);
        assert(lights.remove(d).remove(c) == lights.remove(c).remove(d));
    }
}

/// A light that joins the grid adds its brightness to the total.
pub proof fn lemma_total_insert(lights: Map<(int, int), nat>, c: (int, int), b: nat)
    requires
        lights.dom().finite(),
        !lights.contains_key(c),
    ensures
        total(lights.insert(c, b)) == total(lights) + b,
{
    lemma_total_remove(lights.insert(c, b), c);
    assert(lights.insert(c, b).remove(c) == lights);
}

/// A light whose brightness changes takes the total along by the
/// difference.
pub proof fn lemma_total_update(lights: Map<(int, int), nat>, c: (int, int), b: nat)
    requires
        lights.dom().finite(),
        lights.contains_key(c),
    ensures
        total(lights.insert(c, b)) == total(lights) - lights[c] + b,
{
    lemma_total_remove(lights.insert(c, b), c);
    lemma_total_remove(lights, c);
    assert(lights.insert(c, b).remove(c) == lights.remove(c));
}

} // verus!
