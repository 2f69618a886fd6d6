//! The rule of the Game of Life on an unbounded grid, as mathematics.
//!
//! A world is the set of its live cells. Nothing here is executable: the engine
//! is proved against these definitions.

use vstd::prelude::*;
use crate::geometry::Coord;

verus! {

/// The eight offsets of the Moore neighbourhood, in row-major order.
pub open spec fn moore_offsets() -> Seq<Coord> {
    seq![(-1, -1), (-1, 0), (-1, 1), (0, -1), (0, 1), (1, -1), (1, 0), (1, 1)]
}

/// Whether `a` and `b` are distinct cells that touch, by an edge or a corner.
pub open spec fn adjacent(a: Coord, b: Coord) -> bool {
    &&& a != b
    &&& -1 <= a.0 - b.0 <= 1
    &&& -1 <= a.1 - b.1 <= 1
}

/// One if `c` is live in `world`, zero if not.
pub open spec fn alive(world: Set<Coord>, c: Coord) -> nat {
    if world.contains(c) {
        1
    } else {
        0
    }
}

/// How many of the eight cells around `c` are live in `world`.
pub open spec fn live_neighbours(world: Set<Coord>, c: Coord) -> nat {
    alive(world, (c.0 - 1, c.1 - 1)) + alive(world, (c.0 - 1, c.1)) + alive(
        world,
        (c.0 - 1, c.1 + 1),
    ) + alive(world, (c.0, c.1 - 1)) + alive(world, (c.0, c.1 + 1)) + alive(
        world,
        (c.0 + 1, c.1 - 1),
    ) + alive(world, (c.0 + 1, c.1)) + alive(world, (c.0 + 1, c.1 + 1))
}

/// The neighbour count of every cell that has a live neighbour. A cell with none
/// has no entry.
pub open spec fn neighbour_counts(world: Set<Coord>) -> Map<Coord, nat> {
    Map::new(|c: Coord| live_neighbours(world, c) > 0, |c: Coord| live_neighbours(world, c))
}

/// A live cell with two or three live neighbours stays alive.
pub open spec fn survives(world: Set<Coord>, c: Coord) -> bool {
    &&& world.contains(c)
    &&& (live_neighbours(world, c) == 2 || live_neighbours(world, c) == 3)
}

/// A cell with exactly three live neighbours is alive in the next generation,
/// whether or not it is alive in this one.
pub open spec fn born(world: Set<Coord>, c: Coord) -> bool {
    live_neighbours(world, c) == 3
}

/// The next generation: the survivors together with the births.
pub open spec fn step(world: Set<Coord>) -> Set<Coord> {
    Set::new(|c: Coord| survives(world, c)).union(Set::new(|c: Coord| born(world, c)))
}

/// The eight cells around `c`.
pub open spec fn ring(c: Coord) -> Set<Coord> {
    set![
        (c.0 - 1, c.1 - 1),
        (c.0 - 1, c.1),
        (c.0 - 1, c.1 + 1),
        (c.0, c.1 - 1),
        (c.0, c.1 + 1),
        (c.0 + 1, c.1 - 1),
        (c.0 + 1, c.1),
        (c.0 + 1, c.1 + 1)
    ]
}

/// A world of `k` live cells gives at most `8 * k` cells a neighbour count,
/// wherever its cells lie.
pub proof fn neighbour_counts_are_sparse(world: Set<Coord>)
    requires
        world.finite(),
    ensures
        neighbour_counts(world).dom().finite(),
        neighbour_counts(world).dom().len() <= 8 * world.len(),
    decreases world.len(),
{
    let counted = neighbour_counts(world).dom();
    if world.len() == 0 {
        assert(world =~= Set::<Coord>::empty());
        assert(counted =~= Set::<Coord>::empty());
    } else {
        let a = world.choose();
        let rest = world.remove(a);
        neighbour_counts_are_sparse(rest);
        let before = neighbour_counts(rest).dom();
        assert(ring(a).finite() && ring(a).len() <= 8);
        assert forall|c: Coord| counted.contains(c) implies before.union(ring(a)).contains(c) by {
            if !ring(a).contains(c) {
                assert(live_neighbours(rest, c) == live_neighbours(world, c));
            }
        }
        vstd::set_lib::lemma_len_union(before, ring(a));
        vstd::set_lib::lemma_len_subset(counted, before.union(ring(a)));
    }
}

/// The 2x2 block whose corner of least coordinates is `(x, y)`.
pub open spec fn block(x: int, y: int) -> Set<Coord> {
    set![(x, y), (x + 1, y), (x, y + 1), (x + 1, y + 1)]
}

/// Three cells in a row, centred on `(x, y)`.
pub open spec fn blinker_horizontal(x: int, y: int) -> Set<Coord> {
    set![(x - 1, y), (x, y), (x + 1, y)]
}

/// Three cells in a column, centred on `(x, y)`.
pub open spec fn blinker_vertical(x: int, y: int) -> Set<Coord> {
    set![(x, y - 1), (x, y), (x, y + 1)]
}

/// The empty world stays empty.
pub proof fn step_of_empty()
    ensures
        step(Set::<Coord>::empty()) == Set::<Coord>::empty(),
{
    assert(step(Set::<Coord>::empty()) =~= Set::<Coord>::empty());
}

/// A 2x2 block, wherever it lies, is its own next generation.
pub proof fn block_is_still(x: int, y: int)
    ensures
        step(block(x, y)) == block(x, y),
{
    let b = block(x, y);
    assert forall|c: Coord| step(b).contains(c) <==> b.contains(c) by {
        let n = live_neighbours(b, c);
        if b.contains(c) {
            assert(n == 3);
        } else {
            assert(n != 3);
        }
    }
    assert(step(b) =~= b);
}

/// A row of three becomes the column of three through the same centre.
proof fn lemma_row_becomes_column(x: int, y: int)
    ensures
        step(blinker_horizontal(x, y)) == blinker_vertical(x, y),
{
    let h = blinker_horizontal(x, y);
    let v = blinker_vertical(x, y);
    assert forall|c: Coord| h.contains(c) <==> (c.1 == y && x - 1 <= c.0 <= x + 1) by {}
    assert forall|c: Coord| v.contains(c) <==> (c.0 == x && y - 1 <= c.1 <= y + 1) by {}
    assert forall|c: Coord| step(h).contains(c) <==> v.contains(c) by {
        let n = live_neighbours(h, c);
        if c.1 < y - 1 || c.1 > y + 1 || c.0 < x - 2 || c.0 > x + 2 {
            assert(n == 0);
        } else if c.0 == x {
            assert(c.1 == y ==> n == 2);
            assert(c.1 != y ==> n == 3);
        } else if c.0 == x - 1 || c.0 == x + 1 {
            assert(c.1 == y ==> n == 1);
            assert(c.1 != y ==> n == 2);
        } else {
            assert(n == 1);
        }
    }
    assert(step(h) =~= v);
}

/// A column of three becomes the row of three through the same centre.
proof fn lemma_column_becomes_row(x: int, y: int)
    ensures
        step(blinker_vertical(x, y)) == blinker_horizontal(x, y),
{
    let h = blinker_horizontal(x, y);
    let v = blinker_vertical(x, y);
    assert forall|c: Coord| h.contains(c) <==> (c.1 == y && x - 1 <= c.0 <= x + 1) by {}
    assert forall|c: Coord| v.contains(c) <==> (c.0 == x && y - 1 <= c.1 <= y + 1) by {}
    assert forall|c: Coord| step(v).contains(c) <==> h.contains(c) by {
        let n = live_neighbours(v, c);
        if c.0 < x - 1 || c.0 > x + 1 || c.1 < y - 2 || c.1 > y + 2 {
            assert(n == 0);
        } else if c.1 == y {
            assert(c.0 == x ==> n == 2);
            assert(c.0 != x ==> n == 3);
        } else if c.1 == y - 1 || c.1 == y + 1 {
            assert(c.0 == x ==> n == 1);
            assert(c.0 != x ==> n == 2);
        } else {
            assert(n == 1);
        }
    }
    assert(step(v) =~= h);
}

/// A blinker, wherever it lies, turns from a row into a column and back: its
/// period is two, so an odd number of generations leaves it turned.
pub proof fn blinker_oscillates(x: int, y: int)
    ensures
        step(blinker_horizontal(x, y)) == blinker_vertical(x, y),
        step(blinker_vertical(x, y)) == blinker_horizontal(x, y),
        step(step(blinker_horizontal(x, y))) == blinker_horizontal(x, y),
        step(step(step(blinker_horizontal(x, y)))) == blinker_vertical(x, y),
{
    lemma_row_becomes_column(x, y);
    lemma_column_becomes_row(x, y);
}

} // verus!
