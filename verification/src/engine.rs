//! The simulation engine: neighbour counting and the step to the next generation.
//!
//! The cost of a step is proportional to the number of live cells: each live cell
//! names its eight neighbours, the names are tallied, and the rule is applied to
//! the cells that were named and to the live cells themselves.
//!
//! The neighbours of a cell on the edge of the 32-bit range lie beyond it, so
//! neighbours are named and counted in 64 bits. Only a birth beyond the 32-bit
//! range cannot be held by a world.

use vstd::prelude::*;
use vstd::multiset::Multiset;
use vstd::std_specs::iter::IteratorSpec;
use std::collections::HashMap;
use itertools::Itertools;
use crate::geometry::{all_representable, fits, plus, representable, vec_add_wide, Cell, Coord};
use crate::rule::{adjacent, live_neighbours, moore_offsets, neighbour_counts, step};
use crate::world::{
    coord_of, key_of, lemma_coord_roundtrip, lemma_key_roundtrip, pack, unpack, World,
};

verus! {

broadcast use vstd::std_specs::hash::group_hash_axioms;

/// The number of integers in `lo..=hi`.
spec fn side(lo: int, hi: int) -> int {
    hi - lo + 1
}

/// The pairs `(a, b)` with `a` and `b` in `lo..=hi`, as `itertools` yields them:
/// `Itertools::cartesian_product` of the range with itself walks the second
/// range once for every item of the first, so the first component changes
/// slowest, and `Itertools::collect_vec` keeps that order. The pairs, of eight
/// bytes each, must fit in one allocation.
#[verifier::external_body]
fn square_grid(lo: i32, hi: i32) -> (pairs: Vec<(i32, i32)>)
    requires
        lo <= hi,
        8 * (side(lo as int, hi as int) * side(lo as int, hi as int)) <= isize::MAX,
    ensures
        pairs@.len() == side(lo as int, hi as int) * side(lo as int, hi as int),
        forall|i: int|
            0 <= i < pairs@.len() ==> {
                &&& (#[trigger] pairs@[i]).0 == lo + i / side(lo as int, hi as int)
                &&& pairs@[i].1 == lo + i % side(lo as int, hi as int)
            },
{
    (lo..=hi).cartesian_product(lo..=hi).collect_vec()
}

/// How often each key occurs in `items`, as `itertools` counts it:
/// `Itertools::counts` returns a map that holds exactly the items that occur,
/// each with the number of its occurrences.
#[verifier::external_body]
fn tally(items: Vec<u128>) -> (counts: HashMap<u128, usize>)
    ensures
        forall|k: u128| #[trigger] counts@.contains_key(k) <==> items@.contains(k),
        forall|k: u128|
            counts@.contains_key(k) ==> #[trigger] counts@[k] == items@.to_multiset().count(k),
{
    items.into_iter().counts()
}

/// The eight offsets of the Moore neighbourhood.
fn offsets() -> (deltas: Vec<Cell>)
    ensures
        deltas@.len() == 8,
        forall|j: int| 0 <= j < 8 ==> (#[trigger] deltas@[j])@ == moore_offsets()[j],
{
    assert(side(-1, 1) * side(-1, 1) == 9) by (nonlinear_arith)
        requires
            side(-1, 1) == 3,
    ;
    let pairs = square_grid(-1, 1);
    let mut deltas: Vec<Cell> = Vec::new();
    for i in 0..9usize
        invariant
            pairs@.len() == 9,
            forall|n: int|
                0 <= n < 9 ==> (#[trigger] pairs@[n]).0 == -1 + n / 3 && pairs@[n].1 == -1 + n % 3,
            deltas@.len() == (if i <= 4 {
                i as int
            } else {
                i - 1
            }),
            forall|j: int| 0 <= j < deltas@.len() ==> (#[trigger] deltas@[j])@ == moore_offsets()[j],
    {
        let (dx, dy) = pairs[i];
        if dx != 0 || dy != 0 {
            deltas.push(Cell::new(dx, dy));
        }
    }
    deltas
}

/// Whether both components of `c` fit in 64 bits.
spec fn wide(c: Coord) -> bool {
    &&& i64::MIN <= c.0 <= i64::MAX
    &&& i64::MIN <= c.1 <= i64::MAX
}

/// The key under which the neighbour count of a cell is kept: `x` and `y`, each
/// shifted to be non-negative, in the high and the low 64 bits.
spec fn wide_key(c: Coord) -> u128 {
    ((c.0 + 0x8000_0000_0000_0000) * 0x1_0000_0000_0000_0000 + (c.1 + 0x8000_0000_0000_0000)) as u128
}

/// The cell that a wide key stands for.
spec fn wide_coord(k: u128) -> Coord {
    (
        (k / 0x1_0000_0000_0000_0000) as int - 0x8000_0000_0000_0000,
        (k % 0x1_0000_0000_0000_0000) as int - 0x8000_0000_0000_0000,
    )
}

/// Every cell that fits in 64 bits is found again from its wide key.
proof fn lemma_wide_key_roundtrip(c: Coord)
    requires
        wide(c),
    ensures
        wide_coord(wide_key(c)) == c,
        (c.0 + 0x8000_0000_0000_0000) * 0x1_0000_0000_0000_0000 + (c.1 + 0x8000_0000_0000_0000)
            == wide_key(c),
{
}

/// Every wide key stands for one cell that fits in 64 bits, and is its key.
proof fn lemma_wide_coord_roundtrip(k: u128)
    ensures
        wide(wide_coord(k)),
        wide_key(wide_coord(k)) == k,
{
}

/// The wide key of a cell.
fn wide_pack(x: i64, y: i64) -> (k: u128)
    ensures
        k == wide_key((x as int, y as int)),
        wide_coord(k) == (x as int, y as int),
{
    proof {
        lemma_wide_key_roundtrip((x as int, y as int));
    }
    let hi: u128 = (x as i128 + 0x8000_0000_0000_0000) as u128;
    let lo: u128 = (y as i128 + 0x8000_0000_0000_0000) as u128;
    hi * 0x1_0000_0000_0000_0000 + lo
}

/// The cell of a wide key.
fn wide_unpack(k: u128) -> (c: (i64, i64))
    ensures
        (c.0 as int, c.1 as int) == wide_coord(k),
{
    proof {
        lemma_wide_coord_roundtrip(k);
    }
    let hi: i128 = (k / 0x1_0000_0000_0000_0000) as i128 - 0x8000_0000_0000_0000;
    let lo: i128 = (k % 0x1_0000_0000_0000_0000) as i128 - 0x8000_0000_0000_0000;
    (hi as i64, lo as i64)
}

/// One if `a` touches `c`, zero if not.
spec fn touch(a: Coord, c: Coord) -> nat {
    if adjacent(a, c) {
        1
    } else {
        0
    }
}

/// How many of the cells listed in `cells` touch `c`.
spec fn contributions(cells: Seq<Coord>, c: Coord) -> nat
    decreases cells.len(),
{
    if cells.len() == 0 {
        0
    } else {
        contributions(cells.drop_last(), c) + touch(cells.last(), c)
    }
}

/// How many of the first `j` Moore offsets lead from `cell` to `c`.
spec fn hits(cell: Coord, c: Coord, j: int) -> nat
    decreases j,
{
    if j <= 0 {
        0
    } else {
        hits(cell, c, j - 1) + (if plus(cell, moore_offsets()[j - 1]) == c {
            1nat
        } else {
            0nat
        })
    }
}

/// Of the eight offsets, one leads from `cell` to `c` if the two touch, and none
/// if they do not.
proof fn lemma_hits_all(cell: Coord, c: Coord)
    ensures
        hits(cell, c, 8) == touch(cell, c),
{
    reveal_with_fuel(hits, 9);
}

/// Counted over a list without repetition, the cells that touch `c` are the live
/// neighbours of `c` in the set of the listed cells.
proof fn lemma_contributions(cells: Seq<Coord>, c: Coord)
    requires
        cells.no_duplicates(),
    ensures
        contributions(cells, c) == live_neighbours(cells.to_set(), c),
    decreases cells.len(),
{
    if cells.len() == 0 {
        assert(cells.to_set() =~= Set::<Coord>::empty());
    } else {
        let rest = cells.drop_last();
        let a = cells.last();
        lemma_contributions(rest, c);
        assert forall|x: Coord| cells.to_set().contains(x) <==> rest.to_set().insert(a).contains(x) by {
            if cells.to_set().contains(x) {
                let i = choose|i: int| 0 <= i < cells.len() && cells[i] == x;
                if i < cells.len() - 1 {
                    assert(rest[i] == x);
                }
            }
            if rest.to_set().contains(x) {
                let i = choose|i: int| 0 <= i < rest.len() && rest[i] == x;
                assert(cells[i] == x);
            }
        }
        assert(cells.to_set() =~= rest.to_set().insert(a));
        assert(!rest.to_set().contains(a)) by {
            if rest.to_set().contains(a) {
                let i = choose|i: int| 0 <= i < rest.len() && rest[i] == a;
                assert(cells[i] == cells[cells.len() - 1]);
            }
        }
    }
}

/// For every cell with a live neighbour, the number of its live neighbours.
pub struct NeighbourCounts {
    counts: HashMap<u128, usize>,
}

impl View for NeighbourCounts {
    type V = Map<Coord, nat>;

    closed spec fn view(&self) -> Map<Coord, nat> {
        Map::new(
            |c: Coord| wide(c) && self.counts@.contains_key(wide_key(c)),
            |c: Coord| self.counts@[wide_key(c)] as nat,
        )
    }
}

impl NeighbourCounts {
    /// There are as many entries as keys in the tally.
    proof fn lemma_size(&self)
        ensures
            self@.dom().finite(),
            self@.dom().len() == self.counts@.dom().len(),
    {
        let f = |k: u128| wide_coord(k);
        assert(vstd::relations::injective_on(f, self.counts@.dom())) by {
            assert forall|a: u128, b: u128| #[trigger] f(a) == #[trigger] f(b) implies a == b by {
                lemma_wide_coord_roundtrip(a);
                lemma_wide_coord_roundtrip(b);
            }
        }
        let image = self.counts@.dom().map(f);
        assert forall|c: Coord| self@.dom().contains(c) <==> image.contains(c) by {
            if self@.dom().contains(c) {
                lemma_wide_key_roundtrip(c);
                assert(self.counts@.dom().contains(wide_key(c)) && f(wide_key(c)) == c);
            }
            if image.contains(c) {
                let k = choose|k: u128| self.counts@.dom().contains(k) && f(k) == c;
                lemma_wide_coord_roundtrip(k);
            }
        }
        assert(self@.dom() =~= image);
        vstd::set_lib::lemma_map_size(self.counts@.dom(), self@.dom(), f);
    }

    /// The number of live neighbours recorded for `cell`: zero where there is no
    /// entry.
    pub fn get(&self, cell: Cell) -> (count: usize)
        ensures
            count == (if self@.contains_key(cell@) {
                self@[cell@]
            } else {
                0
            }),
    {
        let k = wide_pack(cell.x as i64, cell.y as i64);
        match self.counts.get(&k) {
            Some(n) => *n,
            None => 0,
        }
    }

    /// The number of entries.
    pub fn len(&self) -> (entries: usize)
        ensures
            entries == self@.dom().len(),
            self@.dom().finite(),
    {
        proof {
            self.lemma_size();
        }
        self.counts.len()
    }
}

/// Counts, for every cell that has one, its live neighbours.
///
/// A cell without a live neighbour gets no entry, so a world of `k` cells yields
/// at most `8 * k` entries, wherever its cells lie.
pub fn convolve(world: &World) -> (counts: NeighbourCounts)
    ensures
        counts@ == neighbour_counts(world@),
        counts@.dom().finite(),
        counts@.dom().len() <= 8 * world@.len(),
{
    let deltas = offsets();
    let mut named: Vec<u128> = Vec::new();
    let ghost keys = world.cells.iter().remaining().unref();
    let ghost coords = keys.map_values(|k: u64| coord_of(k));
    proof {
        world.lemma_view();
        world.lemma_size();
        assert(keys.to_set() == world.cells@);
        assert(named@.to_multiset() =~= Multiset::<u128>::empty()) by {
            named@.to_multiset_ensures();
        }
    }
    for k in it: world.cells.iter()
        invariant
            it.seq().unref() == keys,
            coords == keys.map_values(|k: u64| coord_of(k)),
            deltas@.len() == 8,
            forall|j: int| 0 <= j < 8 ==> (#[trigger] deltas@[j])@ == moore_offsets()[j],
            named@.len() == 8 * it.index(),
            forall|q: u128| #[trigger]
                named@.to_multiset().count(q) == contributions(
                    coords.take(it.index()),
                    wide_coord(q),
                ),
    {
        let cell = unpack(*k);
        let ghost before = named@;
        let ghost done = it.index();
        for j in 0..8usize
            invariant
                deltas@.len() == 8,
                forall|n: int| 0 <= n < 8 ==> (#[trigger] deltas@[n])@ == moore_offsets()[n],
                named@.len() == before.len() + j,
                forall|q: u128| #[trigger]
                    named@.to_multiset().count(q) == before.to_multiset().count(q) + hits(
                        cell@,
                        wide_coord(q),
                        j as int,
                    ),
        {
            let ghost pushed = named@;
            let neighbour = vec_add_wide(cell, deltas[j]);
            let key = wide_pack(neighbour.0, neighbour.1);
            named.push(key);
            proof {
                vstd::seq_lib::to_multiset_build(pushed, key);
                assert forall|q: u128| #[trigger]
                    named@.to_multiset().count(q) == before.to_multiset().count(q) + hits(
                        cell@,
                        wide_coord(q),
                        j + 1,
                    ) by {
                    lemma_wide_coord_roundtrip(q);
                    assert(pushed.to_multiset().insert(key).count(q) == pushed.to_multiset().count(q)
                        + (if q == key {
                        1int
                    } else {
                        0int
                    }));
                }
            }
        }
        proof {
            let next = coords.take(done + 1);
            assert(next.drop_last() =~= coords.take(done));
            assert(next.last() == cell@);
            assert forall|q: u128| #[trigger]
                named@.to_multiset().count(q) == contributions(next, wide_coord(q)) by {
                lemma_hits_all(cell@, wide_coord(q));
            }
        }
    }
    let ghost names = named@;
    let counts = NeighbourCounts { counts: tally(named) };
    proof {
        assert(coords.take(coords.len() as int) =~= coords);
        assert(coords.no_duplicates()) by {
            assert forall|i: int, j: int|
                0 <= i < coords.len() && 0 <= j < coords.len() && i != j implies coords[i] != coords[j] by {
                lemma_coord_roundtrip(keys[i]);
                lemma_coord_roundtrip(keys[j]);
            }
        }
        assert(coords.to_set() =~= world@) by {
            assert forall|c: Coord| coords.to_set().contains(c) <==> world@.contains(c) by {
                if coords.to_set().contains(c) {
                    let i = choose|i: int| 0 <= i < coords.len() && coords[i] == c;
                    assert(keys.to_set().contains(keys[i]));
                }
                if world@.contains(c) {
                    assert(keys.to_set().contains(key_of(c)));
                    let i = choose|i: int| 0 <= i < keys.len() && keys[i] == key_of(c);
                    lemma_key_roundtrip(c);
                    assert(coords[i] == c);
                }
            }
        }
        names.to_multiset_ensures();
        assert forall|c: Coord| #[trigger]
            counts@.dom().contains(c) <==> neighbour_counts(world@).dom().contains(c) by {
            lemma_contributions(coords, c);
            if wide(c) {
                lemma_wide_key_roundtrip(c);
                let q = wide_key(c);
                assert(names.to_multiset().count(q) == contributions(coords, c));
                assert(names.contains(q) <==> names.to_multiset().count(q) > 0);
                assert(counts.counts@.contains_key(q) <==> names.contains(q));
                assert(counts@.dom().contains(c) <==> live_neighbours(world@, c) > 0);
            } else {
                assert(!counts@.dom().contains(c));
                assert(live_neighbours(world@, c) == 0);
            }
        }
        assert forall|c: Coord| counts@.dom().contains(c) implies #[trigger] counts@[c]
            == neighbour_counts(world@)[c] by {
            lemma_contributions(coords, c);
            lemma_wide_key_roundtrip(c);
        }
        assert(counts@ =~= neighbour_counts(world@));
        counts.lemma_size();
        assert(counts.counts@.dom() =~= names.to_set());
        names.lemma_cardinality_of_set();
    }
    counts
}

/// Whether the tally gives the cell of key `q` two or three neighbours.
spec fn keeps(tally: Map<u128, usize>, q: u64) -> bool {
    let w = wide_key(coord_of(q));
    tally.contains_key(w) && (tally[w] == 2 || tally[w] == 3)
}

/// Whether one of the first `n` entries gives the cell of key `q` exactly three
/// neighbours.
spec fn raised(entries: Seq<(u128, usize)>, n: int, q: u64) -> bool {
    exists|i: int| 0 <= i < n && #[trigger] entries[i] == (wide_key(coord_of(q)), 3usize)
}

/// Advances the world by one generation, if the next generation is representable.
///
/// A live cell with two or three live neighbours survives, a cell with exactly
/// three is born, and no other cell is live. The result is a world of its own.
/// There is none if a cell would be born beyond the 32-bit range.
pub fn try_process_cells(world: &World) -> (result: Option<World>)
    ensures
        result is Some <==> all_representable(step(world@)),
        result matches Some(next) ==> next@ == step(world@),
{
    let counts = convolve(world);
    let mut next = World::new();
    let ghost live = world.cells.iter().remaining().unref();
    let ghost tally = counts.counts@;
    proof {
        next.lemma_view();
        assert(live.to_set() == world.cells@);
    }
    for k in it: world.cells.iter()
        invariant
            it.seq().unref() == live,
            tally == counts.counts@,
            forall|q: u64| #[trigger]
                next.cells@.contains(q) <==> live.take(it.index()).contains(q) && keeps(tally, q),
    {
        let ghost seen = live.take(it.index());
        let ghost grown = live.take(it.index() + 1);
        proof {
            assert(grown =~= seen.push(*k));
            assert forall|q: u64| grown.contains(q) <==> seen.contains(q) || q == *k by {
                if seen.contains(q) {
                    let i = choose|i: int| 0 <= i < seen.len() && seen[i] == q;
                    assert(grown[i] == q);
                }
                if q == *k {
                    assert(grown[grown.len() - 1] == q);
                }
            }
        }
        let cell = unpack(*k);
        let wide_k = wide_pack(cell.x as i64, cell.y as i64);
        match counts.counts.get(&wide_k) {
            Some(n) => {
                if *n == 2 || *n == 3 {
                    next.cells.insert(*k);
                }
            },
            None => {},
        }
    }
    let ghost entries = counts.counts.iter().remaining().unref();
    proof {
        assert(live.take(live.len() as int) =~= live);
        let refs = counts.counts.iter().remaining();
        assert forall|i: int| 0 <= i < entries.len() implies tally.contains_key(
            (#[trigger] entries[i]).0,
        ) && tally[entries[i].0] == entries[i].1 by {
            assert(tally.contains_key(*refs[i].0));
        }
        assert forall|w: u128| tally.contains_key(w) implies exists|i: int|
            0 <= i < entries.len() && #[trigger] entries[i] == (w, tally[w]) by {
            assert(refs.contains((&w, &tally[w])));
            let i = choose|i: int| 0 <= i < refs.len() && refs[i] == (&w, &tally[w]);
            assert(entries[i] == (w, tally[w]));
        }
    }
    for entry in it: counts.counts.iter()
        invariant
            it.seq().unref() == entries,
            tally == counts.counts@,
            counts@ == neighbour_counts(world@),
            forall|i: int|
                0 <= i < entries.len() ==> tally.contains_key((#[trigger] entries[i]).0)
                    && tally[entries[i].0] == entries[i].1,
            forall|q: u64| #[trigger]
                next.cells@.contains(q) <==> (live.contains(q) && keeps(tally, q)) || raised(
                    entries,
                    it.index(),
                    q,
                ),
            forall|i: int|
                0 <= i < it.index() && (#[trigger] entries[i]).1 == 3 ==> representable(
                    wide_coord(entries[i].0),
                ),
    {
        let ghost at = it.index();
        let (wide_k, n) = entry;
        proof {
            assert(entries[at] == (*wide_k, *n));
        }
        if *n == 3 {
            let (x, y) = wide_unpack(*wide_k);
            if !fits(x) || !fits(y) {
                proof {
                    let c = wide_coord(*wide_k);
                    lemma_wide_coord_roundtrip(*wide_k);
                    assert(tally.contains_key(entries[at].0));
                    assert(counts@.dom().contains(c) && counts@[c] == 3);
                    assert(step(world@).contains(c) && !representable(c));
                }
                return None;
            }
            let cell = Cell::new(x as i32, y as i32);
            next.cells.insert(pack(cell));
        }
        proof {
            assert forall|q: u64| raised(entries, at + 1, q) <==> raised(entries, at, q) || (*n == 3
                && wide_coord(*wide_k) == coord_of(q)) by {
                let w = wide_key(coord_of(q));
                lemma_coord_roundtrip(q);
                lemma_wide_key_roundtrip(coord_of(q));
                lemma_wide_coord_roundtrip(*wide_k);
                if raised(entries, at + 1, q) {
                    let i = choose|i: int| 0 <= i < at + 1 && #[trigger] entries[i] == (w, 3usize);
                    if i < at {
                        assert(raised(entries, at, q));
                    }
                }
                if raised(entries, at, q) {
                    let i = choose|i: int| 0 <= i < at && #[trigger] entries[i] == (w, 3usize);
                    assert(0 <= i < at + 1 && entries[i] == (w, 3usize));
                }
                if *n == 3 && wide_coord(*wide_k) == coord_of(q) {
                    assert(entries[at] == (w, 3usize));
                }
            }
            assert forall|q: u64| #[trigger]
                next.cells@.contains(q) <==> (live.contains(q) && keeps(tally, q)) || raised(
                    entries,
                    at + 1,
                    q,
                ) by {
                lemma_coord_roundtrip(q);
                if *n == 3 {
                    lemma_key_roundtrip(wide_coord(*wide_k));
                }
            }
        }
    }
    proof {
        world.lemma_view();
        next.lemma_view();
        next.lemma_finite();
        assert forall|q: u64|
            raised(entries, entries.len() as int, q) <==> tally.contains_key(wide_key(coord_of(q)))
                && tally[wide_key(coord_of(q))] == 3 by {
            let w = wide_key(coord_of(q));
            if raised(entries, entries.len() as int, q) {
                let i = choose|i: int| 0 <= i < entries.len() && #[trigger] entries[i] == (w, 3usize);
                assert(tally.contains_key(entries[i].0));
            }
            if tally.contains_key(w) && tally[w] == 3 {
                let i = choose|i: int| 0 <= i < entries.len() && #[trigger] entries[i] == (w, tally[w]);
                assert(entries[i] == (w, 3usize));
            }
        }
        assert forall|c: Coord| next@.contains(c) <==> step(world@).contains(c) by {
            let n = live_neighbours(world@, c);
            assert(counts@.dom().contains(c) <==> n > 0);
            if n > 0 {
                assert(counts@[c] == n);
            }
            if representable(c) {
                lemma_key_roundtrip(c);
                let q = key_of(c);
                assert(live.to_set().contains(q) <==> live.contains(q));
            } else if n == 3 {
                lemma_wide_key_roundtrip(c);
                let w = wide_key(c);
                let i = choose|i: int| 0 <= i < entries.len() && #[trigger] entries[i] == (w, tally[w]);
                assert(entries[i].1 == 3);
                assert(representable(wide_coord(entries[i].0)));
            }
        }
        assert(next@ =~= step(world@));
    }
    Some(next)
}

/// Advances the world by one generation.
///
/// A live cell with two or three live neighbours survives, a cell with exactly
/// three is born, and no other cell is live. The result is a world of its own.
/// The next generation must be representable: no cell may be born beyond the
/// 32-bit range.
pub fn process_cells(world: &World) -> (next: World)
    requires
        all_representable(step(world@)),
    ensures
        next@ == step(world@),
{
    let result = try_process_cells(world);
    result.unwrap()
}

} // verus!
