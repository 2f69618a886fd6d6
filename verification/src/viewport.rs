//! The view transform: which cell of the world lies under which pixel.
//!
//! A viewport is a zoom level, the edge of a cell in pixels, and a pan offset in
//! cells. The pixel `p` shows the cell `floor(p / cell_size) - origin`.

use vstd::prelude::*;
use crate::geometry::{
    cells_dragged, fits, floor_div, minus, plus, representable, trunc_div, vec_add, vec_div_floor,
    vec_sub, Cell, Coord, ScreenPoint,
};

verus! {

/// The smallest edge of a cell, in pixels.
pub const MIN_CELL_SIZE: i32 = 2;

/// The largest edge of a cell, in pixels.
pub const MAX_CELL_SIZE: i32 = 100;

/// The edge of a cell in a fresh viewport, in pixels.
pub const DEFAULT_CELL_SIZE: i32 = 12;

/// A viewport as mathematics: the edge of a cell in pixels, and the pan offset
/// in cells.
pub struct ViewportModel {
    /// The edge of a cell, in pixels.
    pub cell_size: int,
    /// The pan offset, in cells: pixel `(0, 0)` shows the cell `-origin`.
    pub origin: Coord,
}

/// The requested cell size, saturated at the two limits.
pub open spec fn clamp_size(requested: int) -> int {
    if requested < MIN_CELL_SIZE {
        MIN_CELL_SIZE as int
    } else if requested > MAX_CELL_SIZE {
        MAX_CELL_SIZE as int
    } else {
        requested
    }
}

/// The cell in the column and row of pixel `p` when nothing is panned.
pub open spec fn cell_column_row(p: Coord, cell_size: int) -> Coord {
    (floor_div(p.0, cell_size), floor_div(p.1, cell_size))
}

/// The cell shown at pixel `p`.
pub open spec fn world_at(v: ViewportModel, p: Coord) -> Coord {
    minus(cell_column_row(p, v.cell_size), v.origin)
}

/// The pixel at which the cell `c` begins: its corner of least coordinates.
pub open spec fn pixel_of(v: ViewportModel, c: Coord) -> Coord {
    ((c.0 + v.origin.0) * v.cell_size, (c.1 + v.origin.1) * v.cell_size)
}

/// Whether the cell `c` lies among the whole columns and rows of a surface of
/// `width` by `height` pixels.
pub open spec fn on_screen(v: ViewportModel, c: Coord, width: int, height: int) -> bool {
    &&& 0 <= c.0 + v.origin.0 < floor_div(width, v.cell_size)
    &&& 0 <= c.1 + v.origin.1 < floor_div(height, v.cell_size)
}

/// The viewport panned by a drag from `press` to `cursor`, measured from the
/// offset `baseline` that was in force when the drag began. The displacement is
/// taken in whole cells, rounded toward zero.
pub open spec fn panned(v: ViewportModel, baseline: Coord, press: Coord, cursor: Coord) -> ViewportModel {
    ViewportModel {
        cell_size: v.cell_size,
        origin: plus(
            baseline,
            (trunc_div(cursor.0 - press.0, v.cell_size), trunc_div(cursor.1 - press.1, v.cell_size)),
        ),
    }
}

/// The viewport after a zoom to the requested cell size about `cursor`.
///
/// The size saturates at the limits. If that leaves it unchanged, so is the
/// viewport. Otherwise the offset moves by the cell under the cursor at the old
/// size minus the cell under the cursor at the new size.
pub open spec fn zoomed(v: ViewportModel, cursor: Coord, requested: int) -> ViewportModel {
    let size = clamp_size(requested);
    if size == v.cell_size {
        v
    } else {
        let before = world_at(v, cursor);
        let after = world_at(ViewportModel { cell_size: size, origin: v.origin }, cursor);
        ViewportModel { cell_size: size, origin: plus(v.origin, minus(before, after)) }
    }
}

/// A zoom leaves the cell under the cursor in place exactly when the cursor lies
/// in the same cell column and row at the old size and at the new one.
///
/// Where the column or the row differs, the cell under the cursor moves by twice
/// that difference.
pub proof fn zoom_anchoring(v: ViewportModel, cursor: Coord, requested: int)
    ensures
        world_at(zoomed(v, cursor, requested), cursor) == world_at(v, cursor) <==> cell_column_row(
            cursor,
            clamp_size(requested),
        ) == cell_column_row(cursor, v.cell_size),
        cell_column_row(cursor, clamp_size(requested)) == cell_column_row(cursor, v.cell_size)
            ==> zoomed(v, cursor, requested).origin == v.origin,
{
}

/// The pixel at which a cell begins shows that cell.
pub proof fn pixel_shows_its_cell(v: ViewportModel, c: Coord)
    requires
        v.cell_size > 0,
    ensures
        world_at(v, pixel_of(v, c)) == c,
{
    vstd::arithmetic::div_mod::lemma_div_multiples_vanish(c.0 + v.origin.0, v.cell_size);
    vstd::arithmetic::div_mod::lemma_div_multiples_vanish(c.1 + v.origin.1, v.cell_size);
}

/// A pan is measured from the baseline, not from where the last frame left the
/// viewport: however many frames a drag takes, the result is that of its last
/// frame alone, so the rounding of one frame never adds to that of another.
pub proof fn pan_forgets_earlier_frames(
    v: ViewportModel,
    baseline: Coord,
    press: Coord,
    earlier: Coord,
    cursor: Coord,
)
    ensures
        panned(panned(v, baseline, press, earlier), baseline, press, cursor) == panned(
            v,
            baseline,
            press,
            cursor,
        ),
        v.cell_size > 0 ==> panned(v, baseline, press, press).origin == baseline,
{
}

/// The current zoom and pan.
#[derive(Clone, Copy, Debug)]
pub struct Viewport {
    cell_size: i32,
    origin: Cell,
}

impl View for Viewport {
    type V = ViewportModel;

    closed spec fn view(&self) -> ViewportModel {
        ViewportModel { cell_size: self.cell_size as int, origin: self.origin@ }
    }
}

impl Viewport {
    #[verifier::type_invariant]
    spec fn size_in_range(self) -> bool {
        MIN_CELL_SIZE <= self.cell_size <= MAX_CELL_SIZE
    }

    /// The viewport at the default zoom with nothing panned.
    pub fn new() -> (viewport: Viewport)
        ensures
            viewport@ == (ViewportModel { cell_size: DEFAULT_CELL_SIZE as int, origin: (0, 0) }),
    {
        Viewport { cell_size: DEFAULT_CELL_SIZE, origin: Cell { x: 0, y: 0 } }
    }

    /// The viewport with the given pan offset and the given cell size, saturated
    /// at the limits.
    pub fn with(cell_size: i32, origin: Cell) -> (viewport: Viewport)
        ensures
            viewport@ == (ViewportModel { cell_size: clamp_size(cell_size as int), origin: origin@ }),
    {
        Viewport { cell_size: clamp(cell_size), origin }
    }

    /// The edge of a cell, in pixels.
    pub fn cell_size(&self) -> (size: i32)
        ensures
            size == self@.cell_size,
            MIN_CELL_SIZE <= size <= MAX_CELL_SIZE,
    {
        proof {
            use_type_invariant(self);
        }
        self.cell_size
    }

    /// The pan offset, in cells.
    pub fn origin(&self) -> (origin: Cell)
        ensures
            origin@ == self@.origin,
    {
        self.origin
    }

    /// Whether the cell shown at pixel `p` is representable.
    pub fn can_locate(&self, p: ScreenPoint) -> (yes: bool)
        ensures
            yes == representable(world_at(self@, p@)),
    {
        proof {
            use_type_invariant(self);
        }
        let at = vec_div_floor(p, self.cell_size);
        fits(at.x as i64 - self.origin.x as i64) && fits(at.y as i64 - self.origin.y as i64)
    }

    /// The cell shown at pixel `p`.
    pub fn screen_to_world(&self, p: ScreenPoint) -> (cell: Cell)
        requires
            representable(world_at(self@, p@)),
        ensures
            cell@ == world_at(self@, p@),
    {
        proof {
            use_type_invariant(self);
        }
        vec_sub(vec_div_floor(p, self.cell_size), self.origin)
    }

    /// The pixel at which `cell` begins, if the cell lies among the whole columns
    /// and rows of a surface of `width` by `height` pixels.
    pub fn world_to_screen(&self, cell: Cell, width: i32, height: i32) -> (pixel: Option<ScreenPoint>)
        ensures
            pixel is Some <==> on_screen(self@, cell@, width as int, height as int),
            pixel matches Some(p) ==> p@ == pixel_of(self@, cell@),
    {
        proof {
            use_type_invariant(self);
        }
        if width < 0 || height < 0 {
            proof {
                if width < 0 {
                    lemma_negative_quotient(width as int, self.cell_size as int);
                } else {
                    lemma_negative_quotient(height as int, self.cell_size as int);
                }
            }
            return None;
        }
        let size: i64 = self.cell_size as i64;
        let column: i64 = cell.x as i64 + self.origin.x as i64;
        let row: i64 = cell.y as i64 + self.origin.y as i64;
        let columns: i64 = width as i64 / size;
        let rows: i64 = height as i64 / size;
        if 0 <= column && column < columns && 0 <= row && row < rows {
            proof {
                lemma_product_below(column as int, columns as int, size as int, width as int);
                lemma_product_below(row as int, rows as int, size as int, height as int);
            }
            let x: i64 = column * size;
            let y: i64 = row * size;
            Some(ScreenPoint { x: x as i32, y: y as i32 })
        } else {
            None
        }
    }

    /// Whether the pan offset after a drag from `press` to `cursor`, begun at
    /// the offset `baseline`, is representable.
    pub fn can_pan_to(&self, baseline: Cell, press: ScreenPoint, cursor: ScreenPoint) -> (yes: bool)
        ensures
            yes == representable(panned(self@, baseline@, press@, cursor@).origin),
    {
        proof {
            use_type_invariant(self);
        }
        let delta = cells_dragged(press, cursor, self.cell_size);
        fits(baseline.x as i64 + delta.x as i64) && fits(baseline.y as i64 + delta.y as i64)
    }

    /// Pans by a drag from `press` to `cursor`, measured from the offset
    /// `baseline` that was in force when the drag began.
    pub fn pan_to(&mut self, baseline: Cell, press: ScreenPoint, cursor: ScreenPoint)
        requires
            representable(panned(old(self)@, baseline@, press@, cursor@).origin),
        ensures
            final(self)@ == panned(old(self)@, baseline@, press@, cursor@),
    {
        proof {
            use_type_invariant(&*self);
        }
        let delta = cells_dragged(press, cursor, self.cell_size);
        self.origin = vec_add(baseline, delta);
    }

    /// Whether the pan offset after a zoom to `requested` about `cursor` is
    /// representable.
    pub fn can_zoom_at(&self, cursor: ScreenPoint, requested: i32) -> (yes: bool)
        ensures
            yes == representable(zoomed(self@, cursor@, requested as int).origin),
    {
        proof {
            use_type_invariant(self);
        }
        let size = clamp(requested);
        if size == self.cell_size {
            true
        } else {
            let before = vec_div_floor(cursor, self.cell_size);
            let after = vec_div_floor(cursor, size);
            fits(self.origin.x as i64 + (before.x as i64 - after.x as i64)) && fits(
                self.origin.y as i64 + (before.y as i64 - after.y as i64),
            )
        }
    }

    /// Zooms to the requested cell size about `cursor`.
    pub fn zoom_at(&mut self, cursor: ScreenPoint, requested: i32)
        requires
            representable(zoomed(old(self)@, cursor@, requested as int).origin),
        ensures
            final(self)@ == zoomed(old(self)@, cursor@, requested as int),
    {
        proof {
            use_type_invariant(&*self);
        }
        let size = clamp(requested);
        if size != self.cell_size {
            let before = vec_div_floor(cursor, self.cell_size);
            let after = vec_div_floor(cursor, size);
            proof {
                lemma_quotients_close(cursor@.0, self.cell_size as int, size as int);
                lemma_quotients_close(cursor@.1, self.cell_size as int, size as int);
            }
            let shift = vec_sub(before, after);
            self.origin = vec_add(self.origin, shift);
            self.cell_size = size;
        }
    }
}

/// The requested cell size, saturated at the limits.
fn clamp(requested: i32) -> (size: i32)
    ensures
        size == clamp_size(requested as int),
        MIN_CELL_SIZE <= size <= MAX_CELL_SIZE,
{
    if requested < MIN_CELL_SIZE {
        MIN_CELL_SIZE
    } else if requested > MAX_CELL_SIZE {
        MAX_CELL_SIZE
    } else {
        requested
    }
}

/// A negative value divided by a positive one, rounding down, stays negative.
proof fn lemma_negative_quotient(a: int, d: int)
    requires
        a < 0,
        d > 0,
    ensures
        floor_div(a, d) < 0,
{
    vstd::arithmetic::div_mod::lemma_fundamental_div_mod(a, d);
    vstd::arithmetic::div_mod::lemma_mod_bound(a, d);
    let q = a / d;
    if q >= 0 {
        assert(d * q >= 0) by (nonlinear_arith)
            requires
                d > 0,
                q >= 0,
        ;
    }
}

/// A column before the last whole column begins before the surface ends.
proof fn lemma_product_below(column: int, columns: int, size: int, width: int)
    requires
        0 <= column < columns,
        size > 0,
        width >= 0,
        columns == width / size,
    ensures
        0 <= column * size < width,
{
    vstd::arithmetic::div_mod::lemma_fundamental_div_mod(width, size);
    vstd::arithmetic::div_mod::lemma_mod_bound(width, size);
    assert(column * size <= (columns - 1) * size) by (nonlinear_arith)
        requires
            column <= columns - 1,
            size > 0,
    ;
    assert((columns - 1) * size == size * columns - size) by (nonlinear_arith);
    assert(0 <= column * size) by (nonlinear_arith)
        requires
            0 <= column,
            size > 0,
    ;
}

/// The quotients of one 32-bit value by two divisors of at least two differ by
/// less than the 32-bit range.
proof fn lemma_quotients_close(a: int, d: int, e: int)
    requires
        i32::MIN <= a <= i32::MAX,
        d >= 2,
        e >= 2,
    ensures
        i32::MIN <= floor_div(a, d) - floor_div(a, e) <= i32::MAX,
{
    lemma_floor_div_halves(a, d);
    lemma_floor_div_halves(a, e);
}

/// Dividing a 32-bit value by two or more leaves a 31-bit value.
proof fn lemma_floor_div_halves(a: int, d: int)
    requires
        i32::MIN <= a <= i32::MAX,
        d >= 2,
    ensures
        -0x4000_0000 <= floor_div(a, d) < 0x4000_0000,
{
    vstd::arithmetic::div_mod::lemma_fundamental_div_mod(a, d);
    vstd::arithmetic::div_mod::lemma_mod_bound(a, d);
    let q = a / d;
    if q >= 0x4000_0000 {
        assert(d * q >= 2 * q) by (nonlinear_arith)
            requires
                d >= 2,
                q >= 0,
        ;
    }
    if q < -0x4000_0000 {
        assert(d * q <= 2 * q) by (nonlinear_arith)
            requires
                d >= 2,
                q < 0,
        ;
        assert(d * q + d <= 2 * q + 2) by (nonlinear_arith)
            requires
                d >= 2,
                q + 1 <= 0,
        ;
    }
}

} // verus!
