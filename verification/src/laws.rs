//! What holds of every grid and every command.

use crate::command::{Command, Instruction};
use crate::model::{
    adjust, apply, apply_times, brightness, covers, lemma_total_insert, lemma_total_update,
    rectangle, total,
};
use vstd::prelude::*;

verus! {

/// The coordinates with `x0 <= x < x1` and `y0 <= y < y1`.
pub open spec fn block(x0: int, x1: int, y0: int, y1: int) -> Set<(int, int)> {
    Set::new(|c: (int, int)| x0 <= c.0 < x1 && y0 <= c.1 < y1)
}

/// A block that is one wide holds as many coordinates as it is high.
proof fn lemma_column_size(x: int, y0: int, y1: int)
    requires
        y0 <= y1,
    ensures
        block(x, x + 1, y0, y1).finite(),
        block(x, x + 1, y0, y1).len() == y1 - y0,
    decreases y1 - y0,
{
    if y0 == y1 {
        assert(block(x, x + 1, y0, y1) =~= Set::empty());
    } else {
        lemma_column_size(x, y0, y1 - 1);
        assert(block(x, x + 1, y0, y1) =~= block(x, x + 1, y0, y1 - 1).insert((x, y1 - 1)));
    }
}

/// A block holds as many coordinates as its width times its height.
pub proof fn lemma_block_size(x0: int, x1: int, y0: int, y1: int)
    requires
        x0 <= x1,
        y0 <= y1,
    ensures
        block(x0, x1, y0, y1).finite(),
        block(x0, x1, y0, y1).len() == (x1 - x0) * (y1 - y0),
    decreases x1 - x0,
{
    if x0 == x1 {
        assert(block(x0, x1, y0, y1) =~= Set::empty());
        assert((x1 - x0) * (y1 - y0) == 0) by (nonlinear_arith)
            requires
                x1 - x0 == 0,
        ;
    } else {
        let left = block(x0, x1 - 1, y0, y1);
        let last = block(x1 - 1, x1, y0, y1);
        lemma_block_size(x0, x1 - 1, y0, y1);
        lemma_column_size(x1 - 1, y0, y1);
        assert(block(x0, x1, y0, y1) =~= left + last);
        assert(left.disjoint(last));
        vstd::set_lib::lemma_set_disjoint_lens(left, last);
        assert((x1 - x0) * (y1 - y0) == (x1 - 1 - x0) * (y1 - y0) + (y1 - y0))
            by (nonlinear_arith);
    }
}

/// A rectangle whose start does not lie beyond its end holds as many
/// lights as its width times its height, both corners counted.
pub proof fn law_rectangle_size(command: Command)
    requires
        command.start.0 <= command.end.0,
        command.start.1 <= command.end.1,
    ensures
        rectangle(command).finite(),
        rectangle(command).len() == (command.end.0 - command.start.0 + 1) * (command.end.1
            - command.start.1 + 1),
{
    lemma_block_size(
        command.start.0 as int,
        command.end.0 + 1,
        command.start.1 as int,
        command.end.1 + 1,
    );
    assert(rectangle(command) =~= block(
        command.start.0 as int,
        command.end.0 + 1,
        command.start.1 as int,
        command.end.1 + 1,
    ));
}

/// Every rectangle holds finitely many lights; one whose start lies beyond
/// its end holds none.
pub proof fn law_rectangle_finite(command: Command)
    ensures
        rectangle(command).finite(),
        command.start.0 > command.end.0 || command.start.1 > command.end.1 ==> rectangle(command)
            == Set::<(int, int)>::empty(),
{
    if command.start.0 <= command.end.0 && command.start.1 <= command.end.1 {
        law_rectangle_size(command);
    } else {
        assert(rectangle(command) =~= Set::empty());
    }
}

/// A command reaches the lights of its rectangle and no others: they are
/// the lights that join the grid, and the lights whose brightness the
/// instruction adjusts; every other light stays as it is. On a grid without
/// lights the command leaves as many lights as the rectangle holds.
pub proof fn law_apply_reaches_rectangle(lights: Map<(int, int), nat>, command: Command)
    requires
        command.start.0 <= command.end.0,
        command.start.1 <= command.end.1,
    ensures
        apply(lights, command).dom() == lights.dom() + rectangle(command),
        forall|c: (int, int)|
            rectangle(command).contains(c) ==> #[trigger] apply(lights, command)[c] == adjust(
                command.instruction,
                brightness(lights, c),
            ),
        forall|c: (int, int)|
            !rectangle(command).contains(c) ==> brightness(#[trigger] apply(lights, command), c)
                == brightness(lights, c),
        apply(Map::empty(), command).dom().len() == (command.end.0 - command.start.0 + 1) * (
        command.end.1 - command.start.1 + 1),
{
    law_rectangle_size(command);
    assert(apply(lights, command).dom() =~= lights.dom() + rectangle(command));
    assert(apply(Map::empty(), command).dom() =~= rectangle(command));
}

/// Toggling is no switch: a second toggle does not undo the first. Each
/// toggle adds two, so two of them leave every light of the rectangle
/// brighter by four, and a light that was not part of the grid at four.
pub proof fn law_toggle_twice(lights: Map<(int, int), nat>, command: Command)
    requires
        command.instruction == Instruction::Toggle,
    ensures
        forall|c: (int, int)| #[trigger]
            covers(command, c) ==> brightness(apply(apply(lights, command), command), c)
                == brightness(lights, c) + 4,
        forall|c: (int, int)|
            !(#[trigger] covers(command, c)) ==> brightness(
                apply(apply(lights, command), command),
                c,
            ) == brightness(lights, c),
{
}

/// Turning off never takes a light below zero: turned off `n` times, a
/// light of the rectangle has lost `n`, or is at zero where it had less
/// than `n`.
pub proof fn law_turn_off_saturates(
    lights: Map<(int, int), nat>,
    command: Command,
    n: nat,
    c: (int, int),
)
    requires
        command.instruction == Instruction::TurnOff,
        covers(command, c),
    ensures
        brightness(apply_times(lights, command, n), c) == if brightness(lights, c) >= n {
            brightness(lights, c) - n
        } else {
            0
        },
    decreases n,
{
    if n > 0 {
        law_turn_off_saturates(lights, command, (n - 1) as nat, c);
    }
}

/// The lights among `among` that are lit.
pub open spec fn lit(lights: Map<(int, int), nat>, among: Set<(int, int)>) -> Set<(int, int)> {
    among.filter(|c: (int, int)| brightness(lights, c) >= 1)
}

/// What `instruction` adds to the total of `lights` where it is applied to
/// each light of `among`: one for each light that is turned on, two for
/// each that is toggled, and one less for each lit light that is turned
/// off.
pub open spec fn change(
    lights: Map<(int, int), nat>,
    instruction: Instruction,
    among: Set<(int, int)>,
) -> int {
    match instruction {
        Instruction::TurnOn => among.len() as int,
        Instruction::TurnOff => -(lit(lights, among).len() as int),
        Instruction::Toggle => 2 * (among.len() as int),
    }
}

/// The grid after `instruction` has been applied to each light of `among`.
pub open spec fn adjust_all(
    lights: Map<(int, int), nat>,
    instruction: Instruction,
    among: Set<(int, int)>,
) -> Map<(int, int), nat> {
    Map::new(
        |c: (int, int)| lights.contains_key(c) || among.contains(c),
        |c: (int, int)|
            if among.contains(c) {
                adjust(instruction, brightness(lights, c))
            } else {
                lights[c]
            },
    )
}

/// An instruction that is applied to finitely many lights changes the
/// total by what each of them gains or loses.
pub proof fn lemma_total_adjust_all(
    lights: Map<(int, int), nat>,
    instruction: Instruction,
    among: Set<(int, int)>,
)
    requires
        lights.dom().finite(),
        among.finite(),
    ensures
        adjust_all(lights, instruction, among).dom().finite(),
        total(adjust_all(lights, instruction, among)) == total(lights) + change(
            lights,
            instruction,
            among,
        ),
    decreases among.len(),
{
    let after = adjust_all(lights, instruction, among);
    if among.len() == 0 {
        assert(among =~= Set::empty());
        assert(after =~= lights);
        assert(lit(lights, among) =~= Set::empty());
    } else {
        let c = among.choose();
        let rest = among.remove(c);
        let before = adjust_all(lights, instruction, rest);
        let b = adjust(instruction, brightness(lights, c));
        lemma_total_adjust_all(lights, instruction, rest);
        assert(after =~= before.insert(c, b));
        if lights.contains_key(c) {
            lemma_total_update(before, c, b);
        } else {
            lemma_total_insert(before, c, b);
        }
        if brightness(lights, c) >= 1 {
            assert(lit(lights, among) =~= lit(lights, rest).insert(c));
        } else {
            assert(lit(lights, among) =~= lit(lights, rest));
        }
    }
}

/// What a command does to the total brightness. Turning on adds one for
/// each light of the rectangle and toggling adds two; turning off takes
/// one for each light of the rectangle that is lit, and so never more than
/// the rectangle holds lights.
pub proof fn law_total_after_command(lights: Map<(int, int), nat>, command: Command)
    requires
        lights.dom().finite(),
    ensures
        apply(lights, command).dom().finite(),
        total(apply(lights, command)) == total(lights) + change(
            lights,
            command.instruction,
            rectangle(command),
        ),
        lit(lights, rectangle(command)).len() <= rectangle(command).len(),
{
    law_rectangle_finite(command);
    lemma_total_adjust_all(lights, command.instruction, rectangle(command));
    assert(apply(lights, command) =~= adjust_all(lights, command.instruction, rectangle(command)));
    vstd::set_lib::lemma_len_subset(lit(lights, rectangle(command)), rectangle(command));
}

} // verus!
