//! Integer coordinates: grid cells, screen pixels, and the vector arithmetic on them.
//!
//! Contracts speak of a coordinate as a pair of unbounded integers, a [`Coord`].
//! The executable types hold 32-bit components; every function whose mathematical
//! result might not fit in 32 bits says so in its `requires`.

use vstd::prelude::*;

verus! {

/// A point of the unbounded integer plane: `(x, y)`.
pub type Coord = (int, int);

/// Whether both components of `c` fit in 32 bits.
pub open spec fn representable(c: Coord) -> bool {
    &&& i32::MIN <= c.0 <= i32::MAX
    &&& i32::MIN <= c.1 <= i32::MAX
}

/// Whether every point of the set is [`representable`].
pub open spec fn all_representable(cells: Set<Coord>) -> bool {
    forall|c: Coord| #[trigger] cells.contains(c) ==> representable(c)
}

/// Component-wise sum.
pub open spec fn plus(a: Coord, b: Coord) -> Coord {
    (a.0 + b.0, a.1 + b.1)
}

/// Component-wise difference.
pub open spec fn minus(a: Coord, b: Coord) -> Coord {
    (a.0 - b.0, a.1 - b.1)
}

/// Quotient rounded toward negative infinity, for a positive divisor.
pub open spec fn floor_div(a: int, d: int) -> int
    recommends
        d > 0,
{
    a / d
}

/// Quotient rounded toward zero, for a positive divisor.
pub open spec fn trunc_div(a: int, d: int) -> int
    recommends
        d > 0,
{
    if a >= 0 {
        a / d
    } else {
        -((-a) / d)
    }
}

/// Squared Euclidean distance between two points.
pub open spec fn distance_squared(a: Coord, b: Coord) -> int {
    (a.0 - b.0) * (a.0 - b.0) + (a.1 - b.1) * (a.1 - b.1)
}

/// The address of one cell of the grid, in world coordinates.
#[derive(Clone, Copy, PartialEq, Eq, Structural, Debug, Hash)]
pub struct Cell {
    pub x: i32,
    pub y: i32,
}

impl View for Cell {
    type V = Coord;

    open spec fn view(&self) -> Coord {
        (self.x as int, self.y as int)
    }
}

impl Cell {
    pub fn new(x: i32, y: i32) -> (cell: Cell)
        ensures
            cell@ == (x as int, y as int),
    {
        Cell { x, y }
    }
}

/// A position on the display surface, in pixels.
#[derive(Clone, Copy, PartialEq, Eq, Structural, Debug, Hash)]
pub struct ScreenPoint {
    pub x: i32,
    pub y: i32,
}

impl View for ScreenPoint {
    type V = Coord;

    open spec fn view(&self) -> Coord {
        (self.x as int, self.y as int)
    }
}

impl ScreenPoint {
    pub fn new(x: i32, y: i32) -> (point: ScreenPoint)
        ensures
            point@ == (x as int, y as int),
    {
        ScreenPoint { x, y }
    }
}

/// Whether a 64-bit value fits in 32 bits.
pub(crate) fn fits(v: i64) -> (yes: bool)
    ensures
        yes == (i32::MIN <= v <= i32::MAX),
{
    -0x8000_0000 <= v && v <= 0x7fff_ffff
}

/// Sum of two world vectors, computed by `glam`: `IVec2 + IVec2` adds the two
/// `x` components and the two `y` components with `i32` addition. The sum must
/// fit in 32 bits, where that addition neither panics nor wraps.
#[verifier::external_body]
pub(crate) fn vec_add(a: Cell, b: Cell) -> (sum: Cell)
    requires
        representable(plus(a@, b@)),
    ensures
        sum@ == plus(a@, b@),
{
    let v = glam::IVec2::new(a.x, a.y) + glam::IVec2::new(b.x, b.y);
    Cell { x: v.x, y: v.y }
}

/// Sum of two world vectors in 64 bits, computed by `glam`: `I64Vec2 + I64Vec2`
/// adds component by component with `i64` addition, which cannot overflow on
/// operands that fit in 32 bits.
#[verifier::external_body]
pub(crate) fn vec_add_wide(a: Cell, b: Cell) -> (sum: (i64, i64))
    ensures
        (sum.0 as int, sum.1 as int) == plus(a@, b@),
{
    let v = glam::I64Vec2::new(a.x as i64, a.y as i64) + glam::I64Vec2::new(b.x as i64, b.y as i64);
    (v.x, v.y)
}

/// Difference of two world vectors, computed by `glam`: `IVec2 - IVec2`
/// subtracts component by component with `i32` subtraction. The difference must
/// fit in 32 bits, where that subtraction neither panics nor wraps.
#[verifier::external_body]
pub(crate) fn vec_sub(a: Cell, b: Cell) -> (difference: Cell)
    requires
        representable(minus(a@, b@)),
    ensures
        difference@ == minus(a@, b@),
{
    let v = glam::IVec2::new(a.x, a.y) - glam::IVec2::new(b.x, b.y);
    Cell { x: v.x, y: v.y }
}

/// Both components of a pixel position divided by the same positive divisor,
/// rounding toward negative infinity, computed by `glam`: `IVec2::div_euclid`
/// applies `i32::div_euclid` to each component, which for a positive divisor is
/// the floor of the quotient and cannot overflow.
#[verifier::external_body]
pub(crate) fn vec_div_floor(p: ScreenPoint, d: i32) -> (quotient: Cell)
    requires
        d > 0,
    ensures
        quotient@ == (floor_div(p@.0, d as int), floor_div(p@.1, d as int)),
{
    let v = glam::IVec2::new(p.x, p.y).div_euclid(glam::IVec2::splat(d));
    Cell { x: v.x, y: v.y }
}

/// Whether two pixel positions lie more than `threshold` apart, both measured as
/// squared distance.
pub fn farther_than(a: ScreenPoint, b: ScreenPoint, threshold: i32) -> (far: bool)
    ensures
        far == (distance_squared(a@, b@) > threshold),
{
    let dx: i128 = a.x as i128 - b.x as i128;
    let dy: i128 = a.y as i128 - b.y as i128;
    assert(0 <= dx * dx <= 0x1_0000_0000_0000_0000) by (nonlinear_arith)
        requires
            -0x1_0000_0000 <= dx <= 0x1_0000_0000,
    ;
    assert(0 <= dy * dy <= 0x1_0000_0000_0000_0000) by (nonlinear_arith)
        requires
            -0x1_0000_0000 <= dy <= 0x1_0000_0000,
    ;
    dx * dx + dy * dy > threshold as i128
}

/// The displacement from `from` to `to` in whole cells of `cell_size` pixels,
/// each component rounded toward zero.
pub fn cells_dragged(from: ScreenPoint, to: ScreenPoint, cell_size: i32) -> (cells: Cell)
    requires
        cell_size >= 2,
    ensures
        cells@ == (
            trunc_div(to@.0 - from@.0, cell_size as int),
            trunc_div(to@.1 - from@.1, cell_size as int),
        ),
{
    let dx: i64 = to.x as i64 - from.x as i64;
    let dy: i64 = to.y as i64 - from.y as i64;
    let size: i64 = cell_size as i64;
    proof {
        lemma_trunc_div_halves(dx as int, size as int);
        lemma_trunc_div_halves(dy as int, size as int);
    }
    let qx: i64 = dx / size;
    let qy: i64 = dy / size;
    Cell { x: qx as i32, y: qy as i32 }
}

/// Dividing by two or more at least halves the magnitude.
proof fn lemma_trunc_div_halves(a: int, d: int)
    requires
        d >= 2,
    ensures
        a >= 0 ==> 0 <= trunc_div(a, d) <= a / 2,
        a < 0 ==> -((-a) / 2) <= trunc_div(a, d) <= 0,
{
    if a >= 0 {
        vstd::arithmetic::div_mod::lemma_div_is_ordered_by_denominator(a, 2, d);
        vstd::arithmetic::div_mod::lemma_div_pos_is_pos(a, d);
    } else {
        vstd::arithmetic::div_mod::lemma_div_is_ordered_by_denominator(-a, 2, d);
        vstd::arithmetic::div_mod::lemma_div_pos_is_pos(-a, d);
    }
}

} // verus!
