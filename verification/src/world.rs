//! The world grid: the set of live cells, held sparsely.
//!
//! Only live cells are stored, in a hash set keyed by the cell's two coordinates
//! packed into one 64-bit integer. The view of a [`World`] is the set of its live
//! cells as points of the unbounded plane.

use vstd::prelude::*;
use vstd::std_specs::iter::IteratorSpec;
use std::collections::HashSet;
use crate::geometry::{Cell, Coord, representable};

verus! {

broadcast use vstd::std_specs::hash::group_hash_axioms;

/// The key under which a representable cell is stored: `x` and `y`, each shifted
/// to be non-negative, in the high and the low 32 bits.
pub(crate) open spec fn key_of(c: Coord) -> u64 {
    ((c.0 + 0x8000_0000) * 0x1_0000_0000 + (c.1 + 0x8000_0000)) as u64
}

/// The cell that a key stands for.
pub(crate) open spec fn coord_of(k: u64) -> Coord {
    ((k / 0x1_0000_0000) as int - 0x8000_0000, (k % 0x1_0000_0000) as int - 0x8000_0000)
}

/// Every representable cell is found again from its key.
pub(crate) proof fn lemma_key_roundtrip(c: Coord)
    requires
        representable(c),
    ensures
        coord_of(key_of(c)) == c,
        (c.0 + 0x8000_0000) * 0x1_0000_0000 + (c.1 + 0x8000_0000) == key_of(c),
{
}

/// Every key stands for one representable cell, and is the key of that cell.
pub(crate) proof fn lemma_coord_roundtrip(k: u64)
    ensures
        representable(coord_of(k)),
        key_of(coord_of(k)) == k,
{
}

/// The key of a cell.
pub(crate) fn pack(cell: Cell) -> (k: u64)
    ensures
        k == key_of(cell@),
        coord_of(k) == cell@,
{
    proof {
        lemma_key_roundtrip(cell@);
    }
    let hi: u64 = (cell.x as i64 + 0x8000_0000) as u64;
    let lo: u64 = (cell.y as i64 + 0x8000_0000) as u64;
    hi * 0x1_0000_0000 + lo
}

/// The cell of a key.
pub(crate) fn unpack(k: u64) -> (cell: Cell)
    ensures
        cell@ == coord_of(k),
        key_of(cell@) == k,
{
    proof {
        lemma_coord_roundtrip(k);
    }
    let hi: i64 = (k / 0x1_0000_0000) as i64 - 0x8000_0000;
    let lo: i64 = (k % 0x1_0000_0000) as i64 - 0x8000_0000;
    Cell { x: hi as i32, y: lo as i32 }
}

/// The world with the state of `c` flipped: removed if it was live, added if not.
pub open spec fn toggled(world: Set<Coord>, c: Coord) -> Set<Coord> {
    if world.contains(c) {
        world.remove(c)
    } else {
        world.insert(c)
    }
}

/// The set of live cells.
pub struct World {
    pub(crate) cells: HashSet<u64>,
}

impl View for World {
    type V = Set<Coord>;

    closed spec fn view(&self) -> Set<Coord> {
        Set::new(|c: Coord| representable(c) && self.cells@.contains(key_of(c)))
    }
}

impl World {
    /// What the view is made of: the cells whose keys are stored.
    pub(crate) proof fn lemma_view(&self)
        ensures
            forall|c: Coord| self@.contains(c) <==> representable(c) && self.cells@.contains(key_of(c)),
            forall|k: u64| self.cells@.contains(k) <==> self@.contains(coord_of(k)),
            self@ == self.cells@.map(|k: u64| coord_of(k)),
    {
        assert forall|k: u64| self.cells@.contains(k) <==> self@.contains(coord_of(k)) by {
            lemma_coord_roundtrip(k);
        }
        let image = self.cells@.map(|k: u64| coord_of(k));
        assert forall|c: Coord| self@.contains(c) <==> image.contains(c) by {
            if self@.contains(c) {
                lemma_key_roundtrip(c);
                assert(self.cells@.contains(key_of(c)) && coord_of(key_of(c)) == c);
            }
            if image.contains(c) {
                let k = choose|k: u64| self.cells@.contains(k) && coord_of(k) == c;
                lemma_coord_roundtrip(k);
            }
        }
        assert(self@ =~= image);
    }

    /// A world holds finitely many cells, each of them representable.
    pub proof fn lemma_finite(&self)
        ensures
            self@.finite(),
            forall|c: Coord| self@.contains(c) ==> representable(c),
    {
        self.lemma_size();
    }

    /// The world holds as many cells as it stores keys.
    pub(crate) proof fn lemma_size(&self)
        ensures
            self.cells@.finite(),
            self@.finite(),
            self@.len() == self.cells@.len(),
            forall|c: Coord| self@.contains(c) ==> representable(c),
    {
        self.lemma_view();
        let keys = self.cells.iter().remaining().unref();
        assert(keys.to_set() == self.cells@);
        vstd::seq_lib::seq_to_set_is_finite(keys);
        let f = |k: u64| coord_of(k);
        assert(vstd::relations::injective_on(f, self.cells@)) by {
            assert forall|a: u64, b: u64| #[trigger] f(a) == #[trigger] f(b) implies a == b by {
                lemma_coord_roundtrip(a);
                lemma_coord_roundtrip(b);
            }
        }
        vstd::set_lib::lemma_map_size(self.cells@, self@, f);
    }

    /// The empty world.
    pub fn new() -> (world: World)
        ensures
            world@ == Set::<Coord>::empty(),
    {
        let world = World { cells: HashSet::new() };
        assert(world@ =~= Set::<Coord>::empty());
        world
    }

    /// Whether `cell` is live.
    pub fn contains(&self, cell: Cell) -> (live: bool)
        ensures
            live == self@.contains(cell@),
    {
        let k = pack(cell);
        self.cells.contains(&k)
    }

    /// Makes `cell` live.
    pub fn insert(&mut self, cell: Cell)
        ensures
            final(self)@ == old(self)@.insert(cell@),
    {
        let k = pack(cell);
        self.cells.insert(k);
        proof {
            assert forall|c: Coord| final(self)@.contains(c) <==> old(self)@.insert(cell@).contains(
                c,
            ) by {
                if representable(c) {
                    lemma_key_roundtrip(c);
                }
            }
            assert(final(self)@ =~= old(self)@.insert(cell@));
        }
    }

    /// Makes `cell` dead.
    pub fn remove(&mut self, cell: Cell)
        ensures
            final(self)@ == old(self)@.remove(cell@),
    {
        let k = pack(cell);
        self.cells.remove(&k);
        proof {
            assert forall|c: Coord| final(self)@.contains(c) <==> old(self)@.remove(cell@).contains(
                c,
            ) by {
                if representable(c) {
                    lemma_key_roundtrip(c);
                }
            }
            assert(final(self)@ =~= old(self)@.remove(cell@));
        }
    }

    /// Flips the state of `cell` and says whether it is live afterwards.
    pub fn toggle(&mut self, cell: Cell) -> (live: bool)
        ensures
            final(self)@ == toggled(old(self)@, cell@),
            live == !old(self)@.contains(cell@),
    {
        if self.contains(cell) {
            self.remove(cell);
            false
        } else {
            self.insert(cell);
            true
        }
    }

    /// Kills every cell.
    pub fn clear(&mut self)
        ensures
            final(self)@ == Set::<Coord>::empty(),
    {
        self.cells.clear();
        assert(final(self)@ =~= Set::<Coord>::empty());
    }

    /// The number of live cells.
    pub fn live_count(&self) -> (count: usize)
        ensures
            count == self@.len(),
    {
        proof {
            self.lemma_size();
        }
        self.cells.len()
    }

    /// The live cells, each once, in no particular order.
    pub fn cells(&self) -> (cells: Vec<Cell>)
        ensures
            cells@.no_duplicates(),
            cells@.map_values(|c: Cell| c@).to_set() == self@,
            cells@.len() == self@.len(),
    {
        let mut out: Vec<Cell> = Vec::new();
        let ghost keys = self.cells.iter().remaining().unref();
        for k in it: self.cells.iter()
            invariant
                it.seq().unref() == keys,
                out@.len() == it.index(),
                forall|i: int| 0 <= i < out@.len() ==> key_of(#[trigger] out@[i]@) == keys[i],
        {
            out.push(unpack(*k));
        }
        proof {
            self.lemma_size();
            self.lemma_view();
            let points = out@.map_values(|c: Cell| c@);
            assert(keys.to_set() == self.cells@);
            assert(keys.no_duplicates());
            assert forall|i: int, j: int|
                0 <= i < out@.len() && 0 <= j < out@.len() && i != j implies out@[i] != out@[j] by {
                assert(key_of(out@[i]@) == keys[i] && key_of(out@[j]@) == keys[j]);
            }
            assert forall|c: Coord| points.to_set().contains(c) <==> self@.contains(c) by {
                if self@.contains(c) {
                    assert(keys.to_set().contains(key_of(c)));
                    let i = choose|i: int| 0 <= i < keys.len() && keys[i] == key_of(c);
                    lemma_key_roundtrip(c);
                    lemma_key_roundtrip(out@[i]@);
                    assert(points[i] == c);
                }
                if points.to_set().contains(c) {
                    let i = choose|i: int| 0 <= i < points.len() && points[i] == c;
                    assert(keys.to_set().contains(keys[i]));
                }
            }
            assert(points.to_set() =~= self@);
        }
        out
    }
}

/// Flipping the same cell twice gives the world back.
pub proof fn toggle_twice_restores(world: Set<Coord>, c: Coord)
    ensures
        toggled(toggled(world, c), c) == world,
{
    assert(toggled(toggled(world, c), c) =~= world);
}

} // verus!
