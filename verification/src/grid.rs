//! The grid of lights, and the commands that change it.

use crate::command::{Command, Instruction};
use crate::model::{adjust, apply, brightness, covers, lemma_total_remove, total};
use std::collections::HashMap;
use vstd::prelude::*;
use vstd::std_specs::hash::{spec_hash_map_iter, spec_hash_map_len};
use vstd::std_specs::iter::IteratorSpec;

verus! {

/// One more than the largest x or y that a key can hold.
const SIDE: u128 = 0x1_0000_0000_0000_0000;

/// Whether both parts of `c` are small enough for a key.
spec fn in_square(c: (int, int)) -> bool {
    0 <= c.0 < SIDE && 0 <= c.1 < SIDE
}

/// The key under which the light at `c` is stored.
spec fn key(c: (int, int)) -> u128 {
    (c.0 * SIDE + c.1) as u128
}

/// The coordinate of the light stored under `k`.
spec fn place(k: u128) -> (int, int) {
    (k as int / SIDE as int, k as int % SIDE as int)
}

/// A key is the key of its own place.
proof fn lemma_key_place(k: u128)
    ensures
        in_square(place(k)),
        key(place(k)) == k,
{
}

/// A coordinate is the place of its own key.
proof fn lemma_place_key(c: (int, int))
    requires
        in_square(c),
    ensures
        place(key(c)) == c,
{
}

/// A sparse grid of lights: it holds the lights that some command has
/// reached, each with its brightness. Its view is the map from the
/// coordinates of these lights to their brightness.
pub struct LightGrid {
    cells: HashMap<u128, usize>,
}

impl View for LightGrid {
    type V = Map<(int, int), nat>;

    closed spec fn view(&self) -> Map<(int, int), nat> {
        Map::new(
            |c: (int, int)| in_square(c) && self.cells@.contains_key(key(c)),
            |c: (int, int)| self.cells@[key(c)] as nat,
        )
    }
}

/// Computes the key of the light at `(x, y)`.
fn key_of(x: usize, y: usize) -> (k: u128)
    ensures
        k == key((x as int, y as int)),
        in_square((x as int, y as int)),
{
    (x as u128) * SIDE + (y as u128)
}

impl LightGrid {
    /// A grid without lights.
    pub fn new() -> (grid: Self)
        ensures
            grid@ == Map::<(int, int), nat>::empty(),
    {
        let grid = LightGrid { cells: HashMap::new() };
        assert(grid@ =~= Map::<(int, int), nat>::empty());
        grid
    }

    /// The brightness of the light at `(x, y)`.
    pub fn brightness_at(&self, x: usize, y: usize) -> (b: usize)
        ensures
            b == brightness(self@, (x as int, y as int)),
    {
        let k = key_of(x, y);
        match self.cells.get(&k) {
            Some(b) => *b,
            None => 0,
        }
    }

    /// Applies `instruction` to the light at `(x, y)`, which joins the grid
    /// if it was not part of it.
    pub fn adjust_light(&mut self, instruction: Instruction, x: usize, y: usize)
        requires
            adjust(instruction, brightness(old(self)@, (x as int, y as int))) <= usize::MAX,
        ensures
            final(self)@ == old(self)@.insert(
                (x as int, y as int),
                adjust(instruction, brightness(old(self)@, (x as int, y as int))),
            ),
    {
        let k = key_of(x, y);
        let current: usize = match self.cells.get(&k) {
            Some(b) => *b,
            None => 0,
        };
        let next: usize = match instruction {
            Instruction::TurnOn => current + 1,
            Instruction::TurnOff => current.saturating_sub(1),
            Instruction::Toggle => current + 2,
        };
        self.cells.insert(k, next);
        proof {
            let c = (x as int, y as int);
            assert forall|d: (int, int)| in_square(d) && key(d) == k implies d == c by {
                lemma_place_key(d);
                lemma_place_key(c);
            }
            assert(self@ =~= old(self)@.insert(c, next as nat));
        }
    }

    /// The lights of the grid are the places of its keys, one light for
    /// each key.
    proof fn lemma_lights_of_keys(&self)
        ensures
            self@.dom().finite(),
            self@.dom().len() == self.cells@.dom().len(),
    {
        let keys = self.cells@.dom();
        let to_place = |k: u128| place(k);
        let places = keys.map(to_place);
        assert forall|c: (int, int)| self@.dom().contains(c) implies places.contains(c) by {
            lemma_place_key(c);
            assert(keys.contains(key(c)) && to_place(key(c)) == c);
        }
        assert forall|c: (int, int)| places.contains(c) implies self@.dom().contains(c) by {
            let k = choose|k: u128| keys.contains(k) && c == to_place(k);
            lemma_key_place(k);
        }
        assert(places =~= self@.dom());
        assert(vstd::relations::injective_on(to_place, keys)) by {
            assert forall|k1: u128, k2: u128|
                keys.contains(k1) && keys.contains(k2) && #[trigger] to_place(k1)
                    == #[trigger] to_place(k2) implies k1 == k2 by {
                lemma_key_place(k1);
                lemma_key_place(k2);
            }
        }
        vstd::set_lib::lemma_map_size(keys, places, to_place);
    }

    /// A grid holds finitely many lights.
    pub proof fn lemma_finite(&self)
        ensures
            self@.dom().finite(),
    {
        self.lemma_lights_of_keys();
    }

    /// The number of lights that the grid holds.
    pub fn len(&self) -> (n: usize)
        ensures
            n == self@.dom().len(),
    {
        proof {
            self.lemma_lights_of_keys();
        }
        self.cells.len()
    }
}

/// Whether `c` is a light of the rectangle of `command` that comes before
/// `(x, y)` where the rectangle is walked one x after the other, and for
/// each x one y after the other.
spec fn reached(command: Command, x: int, y: int, c: (int, int)) -> bool {
    covers(command, c) && (c.0 < x || (c.0 == x && c.1 < y))
}

/// The grid at the moment at which `command` has been applied to the lights
/// before `(x, y)` and to no others.
spec fn applied_before(lights: Map<(int, int), nat>, command: Command, x: int, y: int) -> Map<
    (int, int),
    nat,
> {
    Map::new(
        |c: (int, int)| lights.contains_key(c) || reached(command, x, y, c),
        |c: (int, int)|
            if reached(command, x, y, c) {
                adjust(command.instruction, brightness(lights, c))
            } else {
                lights[c]
            },
    )
}

/// Applies `command` to every light of its rectangle, both corners
/// included. A rectangle whose start lies beyond its end holds no light.
pub fn apply_instructions(lights: &mut LightGrid, command: &Command)
    requires
        forall|c: (int, int)| #[trigger]
            covers(*command, c) ==> adjust(command.instruction, brightness(old(lights)@, c))
                <= usize::MAX,
    ensures
        final(lights)@ == apply(old(lights)@, *command),
{
    if command.start.0 > command.end.0 || command.start.1 > command.end.1 {
        assert(apply(lights@, *command) =~= lights@);
        return;
    }
    let ghost before = lights@;
    let mut x = command.start.0;
    assert(lights@ =~= applied_before(before, *command, x as int, command.start.1 as int));
    loop
        invariant_except_break
            lights@ == applied_before(before, *command, x as int, command.start.1 as int),
        invariant
            command.start.0 <= x <= command.end.0,
            command.start.1 <= command.end.1,
            forall|c: (int, int)| #[trigger]
                covers(*command, c) ==> adjust(command.instruction, brightness(before, c))
                    <= usize::MAX,
        ensures
            lights@ == apply(before, *command),
        decreases command.end.0 - x,
    {
        let mut y = command.start.1;
        loop
            invariant_except_break
                lights@ == applied_before(before, *command, x as int, y as int),
            invariant
                command.start.0 <= x <= command.end.0,
                command.start.1 <= y <= command.end.1,
                forall|c: (int, int)| #[trigger]
                    covers(*command, c) ==> adjust(command.instruction, brightness(before, c))
                        <= usize::MAX,
            ensures
                lights@ == applied_before(before, *command, x as int, command.end.1 + 1),
            decreases command.end.1 - y,
        {
            assert(covers(*command, (x as int, y as int)));
            assert(brightness(lights@, (x as int, y as int)) == brightness(
                before,
                (x as int, y as int),
            ));
            lights.adjust_light(command.instruction, x, y);
            assert(lights@ =~= applied_before(before, *command, x as int, y + 1));
            if y == command.end.1 {
                break;
            }
            y += 1;
        }
        if x == command.end.0 {
            assert(lights@ =~= apply(before, *command));
            break;
        }
        assert(lights@ =~= applied_before(before, *command, x + 1, command.start.1 as int));
        x += 1;
    }
}

/// Whether `k` is the key of one of the first `n` entries of `entries`.
spec fn visited(entries: Seq<(&u128, &usize)>, n: int, k: u128) -> bool {
    exists|j: int| 0 <= j < n && *(#[trigger] entries[j]).0 == k
}

/// The lights that are not among the first `n` entries of `entries`.
spec fn unvisited(lights: Map<(int, int), nat>, entries: Seq<(&u128, &usize)>, n: int) -> Map<
    (int, int),
    nat,
> {
    Map::new(
        |c: (int, int)| lights.contains_key(c) && !visited(entries, n, key(c)),
        |c: (int, int)| lights[c],
    )
}

/// The sum of the brightness of all lights of the grid.
pub fn total_brightness(lights: &LightGrid) -> (sum: u128)
    ensures
        sum == total(lights@),
{
    let mut sum: u128 = 0;
    let ghost entries = spec_hash_map_iter(&lights.cells).remaining();
    let ghost mut done: int = 0;
    proof {
        lights.lemma_finite();
        assert(lights.cells@.len() == spec_hash_map_len(&lights.cells));
        assert(unvisited(lights@, entries, 0) =~= lights@);
    }
    for entry in it: lights.cells.iter()
        invariant
            it.seq() == entries,
            it.index() == done,
            entries == spec_hash_map_iter(&lights.cells).remaining(),
            entries.no_duplicates(),
            entries.len() <= usize::MAX,
            lights@.dom().finite(),
            sum + total(unvisited(lights@, entries, done)) == total(lights@),
            sum <= done * usize::MAX,
    {
        proof {
            let i = done;
            let k = *entries[i].0;
            let c = place(k);
            let here = unvisited(lights@, entries, i);
            let next = unvisited(lights@, entries, i + 1);
            lemma_key_place(k);
            assert(lights.cells@.contains_key(k) && lights.cells@[k] == *entries[i].1);
            assert(!visited(entries, i, k)) by {
                if visited(entries, i, k) {
                    let j = choose|j: int| 0 <= j < i && *(#[trigger] entries[j]).0 == k;
                    assert(lights.cells@[*entries[j].0] == *entries[j].1);
                    assert(entries[j] == entries[i]);
                }
            }
            assert(here.dom().subset_of(lights@.dom()));
            vstd::set_lib::lemma_set_subset_finite(lights@.dom(), here.dom());
            lemma_total_remove(here, c);
            assert forall|d: (int, int)| here.remove(c).contains_key(d) implies next.contains_key(
                d,
            ) by {
                lemma_place_key(d);
                if visited(entries, i + 1, key(d)) {
                    let j = choose|j: int| 0 <= j < i + 1 && *(#[trigger] entries[j]).0 == key(d);
                    if j < i {
                        assert(visited(entries, i, key(d)));
                    }
                }
            }
            assert forall|d: (int, int)| next.contains_key(d) implies here.remove(c).contains_key(
                d,
            ) by {
                if visited(entries, i, key(d)) {
                    let j = choose|j: int| 0 <= j < i && *(#[trigger] entries[j]).0 == key(d);
                    assert(0 <= j < i + 1 && *entries[j].0 == key(d));
                }
                if d == c {
                    assert(0 <= i < i + 1 && *entries[i].0 == key(d));
                }
            }
            assert(here.remove(c) =~= next);
            assert((i + 1) * usize::MAX <= usize::MAX * usize::MAX <= u128::MAX) by (nonlinear_arith)
                requires
                    0 <= i + 1 <= usize::MAX,
                    usize::MAX <= 0xFFFF_FFFF_FFFF_FFFF,
            ;
            assert((i + 1) * usize::MAX == i * usize::MAX + usize::MAX) by (nonlinear_arith);
            done = done + 1;
        }
        sum = sum + (*entry.1 as u128);
    }
    proof {
        let rest = unvisited(lights@, entries, done);
        assert forall|d: (int, int)| !rest.contains_key(d) by {
            if lights@.contains_key(d) {
                let k = key(d);
                assert(lights.cells@.contains_key(k));
                assert(entries.contains((&k, &lights.cells@[k])));
                let j = choose|j: int| 0 <= j < entries.len() && entries[j] == (&k, &lights.cells@[k]);
                assert(*entries[j].0 == k);
            }
        }
        assert(rest.dom() =~= Set::<(int, int)>::empty());
    }
    sum
}

} // verus!
