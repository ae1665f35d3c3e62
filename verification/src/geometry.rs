//! Rectangles and the cells they cover.
//!
//! Coordinates are quantized to square cells whose edge is `2^shift`: the cell
//! of a coordinate is the coordinate shifted right by `shift`. A rectangle
//! covers the inclusive range of cells between the cell of its lower corner
//! and the cell of its upper corner, and that range is walked row by row.

use vstd::prelude::*;

verus! {

/// A rectangular entity. **Identifier must be unique.**
#[derive(Debug, Clone)]
pub struct Entity {
    /// Identifier must be unique.
    pub id: u32,
    pub x: u32,
    pub y: u32,
    pub width: u32,
    pub height: u32,
}

/// A rectangular query region.
#[derive(Debug, Clone)]
pub struct Query {
    pub x: u32,
    pub y: u32,
    pub width: u32,
    pub height: u32,
}

impl From<Entity> for Query {
    fn from(value: Entity) -> (query: Self) {
        Self { x: value.x, y: value.y, width: value.width, height: value.height }
    }
}

impl vstd::std_specs::convert::FromSpecImpl<Entity> for Query {
    open spec fn obeys_from_spec() -> bool {
        true
    }

    open spec fn from_spec(value: Entity) -> Self {
        value.rect()
    }
}

/// An inclusive range of cells: columns `sx..=ex`, rows `sy..=ey`.
#[derive(Debug, Clone, Copy, PartialEq, Eq, Structural)]
pub struct CellSpan {
    pub sx: u32,
    pub sy: u32,
    pub ex: u32,
    pub ey: u32,
}

/// The cell coordinate of the coordinate `v` at cell size `2^shift`.
pub open spec fn cell_of(v: u32, shift: u32) -> u32 {
    v >> shift
}

impl CellSpan {
    /// The range is not empty.
    pub open spec fn wf(self) -> bool {
        self.sx <= self.ex && self.sy <= self.ey
    }

    /// The range is one cell.
    pub open spec fn is_single(self) -> bool {
        self.sx == self.ex && self.sy == self.ey
    }

    /// The cell `c` lies in the range.
    pub open spec fn covers(self, c: (u32, u32)) -> bool {
        self.sx <= c.0 <= self.ex && self.sy <= c.1 <= self.ey
    }

    /// The cell `c` lies in the range, at `(x, y)` or after it in row order.
    pub open spec fn covers_from(self, x: u32, y: u32, c: (u32, u32)) -> bool {
        self.covers(c) && (c.1 > y || (c.1 == y && c.0 >= x))
    }

    /// The cells of the range from `(x, y)` on, row by row.
    pub open spec fn cells_from(self, x: u32, y: u32) -> Seq<(u32, u32)>
        decreases self.ey - y, self.ex - x,
    {
        if !self.covers((x, y)) {
            Seq::empty()
        } else if x < self.ex {
            seq![(x, y)] + self.cells_from((x + 1) as u32, y)
        } else if y < self.ey {
            seq![(x, y)] + self.cells_from(self.sx, (y + 1) as u32)
        } else {
            seq![(x, y)]
        }
    }

    /// All cells of the range, row by row.
    pub open spec fn cells(self) -> Seq<(u32, u32)> {
        self.cells_from(self.sx, self.sy)
    }

    /// Whether the range is one cell.
    pub fn single(&self) -> (single: bool)
        ensures
            single == self.is_single(),
    {
        self.sx == self.ex && self.sy == self.ey
    }
}

/// The walk from `(x, y)` visits exactly the cells of the range that lie at
/// `(x, y)` or after it, each once.
pub proof fn lemma_cells_from(span: CellSpan, x: u32, y: u32)
    requires
        span.covers((x, y)),
    ensures
        span.cells_from(x, y).len() > 0,
        span.cells_from(x, y)[0] == (x, y),
        forall|c: (u32, u32)| span.cells_from(x, y).contains(c) <==> span.covers_from(x, y, c),
        span.cells_from(x, y).no_duplicates(),
    decreases span.ey - y, span.ex - x,
{
    let here = seq![(x, y)];
    let walk = span.cells_from(x, y);
    if x < span.ex {
        let rest = span.cells_from((x + 1) as u32, y);
        lemma_cells_from(span, (x + 1) as u32, y);
        lemma_walk_step(span, x, y, (x + 1) as u32, y, rest);
    } else if y < span.ey {
        let rest = span.cells_from(span.sx, (y + 1) as u32);
        lemma_cells_from(span, span.sx, (y + 1) as u32);
        lemma_walk_step(span, x, y, span.sx, (y + 1) as u32, rest);
    } else {
        assert forall|c: (u32, u32)| walk.contains(c) <==> span.covers_from(x, y, c) by {
            if span.covers_from(x, y, c) {
                assert(walk[0] == c);
            }
        }
    }
}

proof fn lemma_walk_step(span: CellSpan, x: u32, y: u32, nx: u32, ny: u32, rest: Seq<(u32, u32)>)
    requires
        span.covers((x, y)),
        span.covers((nx, ny)),
        (nx == x + 1 && ny == y) || (x == span.ex && nx == span.sx && ny == y + 1),
        forall|c: (u32, u32)| rest.contains(c) <==> span.covers_from(nx, ny, c),
        rest.no_duplicates(),
    ensures
        forall|c: (u32, u32)| (seq![(x, y)] + rest).contains(c) <==> span.covers_from(x, y, c),
        (seq![(x, y)] + rest).no_duplicates(),
{
    let walk = seq![(x, y)] + rest;
    assert forall|c: (u32, u32)| walk.contains(c) <==> span.covers_from(x, y, c) by {
        if walk.contains(c) {
            let i = choose|i: int| 0 <= i < walk.len() && walk[i] == c;
            if i > 0 {
                assert(rest[i - 1] == c);
                assert(rest.contains(c));
            }
        }
        if span.covers_from(x, y, c) {
            if c == (x, y) {
                assert(walk[0] == c);
            } else {
                assert(span.covers_from(nx, ny, c));
                assert(rest.contains(c));
                let i = choose|i: int| 0 <= i < rest.len() && rest[i] == c;
                assert(walk[i + 1] == c);
            }
        }
    }
    assert forall|i: int, j: int| 0 <= i < walk.len() && 0 <= j < walk.len() && i != j implies walk[i]
        != walk[j] by {
        if i > 0 && j > 0 {
            assert(rest[i - 1] != rest[j - 1]);
        } else if i == 0 {
            assert(rest.contains(rest[j - 1]));
        } else {
            assert(rest.contains(rest[i - 1]));
        }
    }
}

/// The walk over a range visits exactly the cells that the range covers, each
/// once, and starts at the lower corner.
pub proof fn lemma_cells(span: CellSpan)
    requires
        span.wf(),
    ensures
        span.cells().len() > 0,
        span.cells()[0] == (span.sx, span.sy),
        forall|c: (u32, u32)| span.cells().contains(c) <==> span.covers(c),
        span.cells().no_duplicates(),
        span.is_single() <==> span.cells().len() == 1,
{
    lemma_cells_from(span, span.sx, span.sy);
    assert forall|c: (u32, u32)| span.cells().contains(c) <==> span.covers(c) by {
        assert(span.covers_from(span.sx, span.sy, c) <==> span.covers(c));
    }
    if !span.is_single() {
        if span.sx < span.ex {
            lemma_cells_from(span, (span.sx + 1) as u32, span.sy);
        } else {
            lemma_cells_from(span, span.sx, (span.sy + 1) as u32);
        }
    }
}

/// Shifting right keeps the order of coordinates.
pub proof fn lemma_cell_of_monotonic(a: u32, b: u32, shift: u32)
    requires
        a <= b,
        shift < 32,
    ensures
        cell_of(a, shift) <= cell_of(b, shift),
{
    assert(a >> shift <= b >> shift) by (bit_vector)
        requires
            a <= b,
            shift < 32,
    ;
}

impl Query {
    /// The upper corner does not leave the coordinate space.
    pub open spec fn in_bounds(&self) -> bool {
        self.x + self.width <= u32::MAX && self.y + self.height <= u32::MAX
    }

    /// The range of cells that the rectangle covers at cell size `2^shift`.
    pub open spec fn span(&self, shift: u32) -> CellSpan {
        CellSpan {
            sx: cell_of(self.x, shift),
            sy: cell_of(self.y, shift),
            ex: cell_of((self.x + self.width) as u32, shift),
            ey: cell_of((self.y + self.height) as u32, shift),
        }
    }

    /// Computes the range of cells that the rectangle covers.
    pub fn cell_span(&self, shift: u32) -> (span: CellSpan)
        requires
            self.in_bounds(),
            shift < 32,
        ensures
            span == self.span(shift),
            span.wf(),
    {
        proof {
            lemma_span_wf(*self, shift);
        }
        CellSpan {
            sx: self.x >> shift,
            sy: self.y >> shift,
            ex: (self.x + self.width) >> shift,
            ey: (self.y + self.height) >> shift,
        }
    }
}

impl Entity {
    /// The rectangle of the entity, without its identifier.
    pub open spec fn rect(&self) -> Query {
        Query { x: self.x, y: self.y, width: self.width, height: self.height }
    }

    /// The upper corner does not leave the coordinate space.
    pub open spec fn in_bounds(&self) -> bool {
        self.rect().in_bounds()
    }

    /// The range of cells that the entity covers at cell size `2^shift`.
    pub open spec fn span(&self, shift: u32) -> CellSpan {
        self.rect().span(shift)
    }

    /// Computes the range of cells that the entity covers.
    pub fn cell_span(&self, shift: u32) -> (span: CellSpan)
        requires
            self.in_bounds(),
            shift < 32,
        ensures
            span == self.span(shift),
            span.wf(),
    {
        let rect = Query { x: self.x, y: self.y, width: self.width, height: self.height };
        rect.cell_span(shift)
    }
}

/// The range of cells of a rectangle that stays in the coordinate space is
/// not empty.
pub proof fn lemma_span_wf(rect: Query, shift: u32)
    requires
        rect.in_bounds(),
        shift < 32,
    ensures
        rect.span(shift).wf(),
{
    lemma_cell_of_monotonic(rect.x, (rect.x + rect.width) as u32, shift);
    lemma_cell_of_monotonic(rect.y, (rect.y + rect.height) as u32, shift);
}

} // verus!
