use vstd::prelude::*;

use crate::style::Axis;

verus! {

/// The width and the height of the area that the grid covers.
pub const GRID_EXTENT: u64 = 2000;

/// A grid drawn behind the data: a main line every `offset` pixels, with
/// `subdivisions` finer lines between two main lines.
pub struct Grid {
    offset: u32,
    subdivisions: u8,
}

/// A line of the grid: `axis` is `X` for a vertical line at x = `position`
/// and `Y` for a horizontal line at y = `position`; main lines are drawn
/// thicker than the subdivision lines.
#[derive(Clone, Copy, PartialEq, Eq, Debug, Structural)]
pub struct GridLine {
    pub axis: Axis,
    pub position: u64,
    pub major: bool,
}

/// `a / b` rounded up.
pub open spec fn ceil_div(a: int, b: int) -> int {
    (a + b - 1) / b
}

/// The lines drawn for the `i`-th main line: its subdivision lines first,
/// then the main line itself.
pub open spec fn grid_block(axis: Axis, offset: int, subdivisions: int, i: int) -> Seq<GridLine> {
    let sub_offset = ceil_div(offset, subdivisions);
    Seq::new(subdivisions as nat, |k: int| GridLine { axis, position: (i * offset + k * sub_offset) as u64, major: false })
        .push(GridLine { axis, position: (i * offset) as u64, major: true })
}

/// The lines of the first `n` main lines along `axis`.
pub open spec fn grid_blocks(axis: Axis, offset: int, subdivisions: int, n: int) -> Seq<GridLine>
    decreases n,
{
    if n <= 0 {
        Seq::empty()
    } else {
        grid_blocks(axis, offset, subdivisions, n - 1) + grid_block(axis, offset, subdivisions, n - 1)
    }
}

/// The lines of a grid over `extent` pixels along `axis`: as many main lines
/// as fit in, the last one possibly beyond.
pub open spec fn axis_lines(axis: Axis, offset: int, subdivisions: int, extent: int) -> Seq<GridLine> {
    grid_blocks(axis, offset, subdivisions, ceil_div(extent, offset))
}

/// All lines of the grid, vertical ones first; none where the offset is 0.
pub open spec fn spec_grid_lines(offset: int, subdivisions: int) -> Seq<GridLine> {
    if offset == 0 {
        Seq::empty()
    } else {
        axis_lines(Axis::X, offset, subdivisions, GRID_EXTENT as int) + axis_lines(Axis::Y, offset, subdivisions, GRID_EXTENT as int)
    }
}

impl Grid {
    /// The distance between two main lines, in pixels.
    pub fn offset(&self) -> (r: u32)
        ensures
            r == self.spec_offset(),
    {
        self.offset
    }

    /// Sets the distance between two main lines.
    pub fn set_offset(&mut self, offset: u32)
        ensures
            final(self).spec_offset() == offset,
            final(self).spec_subdivisions() == old(self).spec_subdivisions(),
    {
        self.offset = offset;
    }

    /// The number of subdivision lines per main line.
    pub fn subdivisions(&self) -> (r: u8)
        ensures
            r == self.spec_subdivisions(),
    {
        self.subdivisions
    }

    /// Sets the number of subdivision lines per main line.
    pub fn set_subdivisions(&mut self, subdivisions: u8)
        ensures
            final(self).spec_subdivisions() == subdivisions,
            final(self).spec_offset() == old(self).spec_offset(),
    {
        self.subdivisions = subdivisions;
    }

    /// The distance between two main lines.
    pub closed spec fn spec_offset(&self) -> u32 {
        self.offset
    }

    /// The number of subdivision lines per main line.
    pub closed spec fn spec_subdivisions(&self) -> u8 {
        self.subdivisions
    }

    /// The lines to draw, in drawing order.
    pub fn lines(&self) -> (r: Vec<GridLine>)
        ensures
            r@ == spec_grid_lines(self.spec_offset() as int, self.spec_subdivisions() as int),
    {
        if self.offset == 0 {
            return Vec::new();
        }
        let mut r: Vec<GridLine> = Vec::new();
        append_axis_lines(&mut r, Axis::X, self.offset, self.subdivisions);
        append_axis_lines(&mut r, Axis::Y, self.offset, self.subdivisions);
        r
    }
}

/// Appends the lines along `axis` over the grid's extent.
fn append_axis_lines(r: &mut Vec<GridLine>, axis: Axis, offset: u32, subdivisions: u8)
    requires
        offset > 0,
    ensures
        final(r)@ == old(r)@ + axis_lines(axis, offset as int, subdivisions as int, GRID_EXTENT as int),
{
    let o: u64 = offset as u64;
    let d: u64 = subdivisions as u64;
    let steps: u64 = (GRID_EXTENT + o - 1) / o;
    let sub_offset: u64 = if d == 0 { 0 } else { (o + d - 1) / d };
    let ghost start = r@;
    assert(steps * o < GRID_EXTENT + o) by (nonlinear_arith)
        requires
            steps == ceil_div(GRID_EXTENT as int, o as int),
            o > 0,
    ;
    assert(d > 0 ==> sub_offset <= o) by (nonlinear_arith)
        requires
            d > 0 ==> sub_offset == ceil_div(o as int, d as int),
            o > 0,
    ;
    let mut i: u64 = 0;
    while i < steps
        invariant
            o == offset,
            d == subdivisions,
            o > 0,
            steps == ceil_div(GRID_EXTENT as int, o as int),
            steps * o < GRID_EXTENT + o,
            d > 0 ==> sub_offset == ceil_div(o as int, d as int),
            d > 0 ==> sub_offset <= o,
            i <= steps,
            r@ == start + grid_blocks(axis, o as int, d as int, i as int),
        decreases steps - i,
    {
        assert(i * o < GRID_EXTENT + o) by (nonlinear_arith)
            requires
                i < steps,
                steps * o < GRID_EXTENT + o,
                o > 0,
        ;
        let base: u64 = i * o;
        let ghost before = r@;
        let mut k: u64 = 0;
        while k < d
            invariant
                o == offset,
                d == subdivisions,
                d > 0 ==> sub_offset == ceil_div(o as int, d as int),
                d > 0 ==> sub_offset <= o,
                base == i * o,
                base < GRID_EXTENT + o,
                o <= u32::MAX,
                d <= 255,
                k <= d,
                r@ == before + grid_block(axis, o as int, d as int, i as int).take(k as int),
            decreases d - k,
        {
            assert(k * sub_offset <= 255 * o) by (nonlinear_arith)
                requires
                    k < d,
                    d <= 255,
                    sub_offset <= o,
            ;
            let p: u64 = base + k * sub_offset;
            r.push(GridLine { axis, position: p, major: false });
            proof {
                let b = grid_block(axis, o as int, d as int, i as int);
                assert(b[k as int] == GridLine { axis, position: p, major: false });
                assert(r@ =~= before + b.take(k + 1));
            }
            k = k + 1;
        }
        r.push(GridLine { axis, position: base, major: true });
        proof {
            let b = grid_block(axis, o as int, d as int, i as int);
            assert(b.take(d as int) + seq![b[d as int]] =~= b);
            assert(r@ =~= start + grid_blocks(axis, o as int, d as int, i + 1));
        }
        i = i + 1;
    }
}

impl Default for Grid {
    /// A main line every 200 pixels, with 4 subdivisions.
    fn default() -> (r: Self)
        ensures
            r.spec_offset() == 200,
            r.spec_subdivisions() == 4,
    {
        Grid { offset: 200, subdivisions: 4 }
    }
}


proof fn lemma_blocks_len(axis: Axis, offset: int, subdivisions: int, n: int)
    requires
        n >= 0,
        subdivisions >= 0,
    ensures
        grid_blocks(axis, offset, subdivisions, n).len() == n * (subdivisions + 1),
    decreases n,
{
    if n > 0 {
        lemma_blocks_len(axis, offset, subdivisions, n - 1);
        assert(grid_block(axis, offset, subdivisions, n - 1).len() == subdivisions + 1);
        assert((n - 1) * (subdivisions + 1) + (subdivisions + 1) == n * (subdivisions + 1)) by (nonlinear_arith);
    } else {
        assert(n * (subdivisions + 1) == 0) by (nonlinear_arith)
            requires
                n == 0,
        ;
    }
}

/// A grid with main lines every `offset` pixels draws, on each axis, as
/// many main lines as it takes to cover the grid's extent, each with its
/// subdivision lines: `2 · ⌈extent / offset⌉ · (subdivisions + 1)` lines.
pub proof fn law_grid_line_count(offset: u32, subdivisions: u8)
    requires
        offset > 0,
    ensures
        spec_grid_lines(offset as int, subdivisions as int).len()
            == 2 * ceil_div(GRID_EXTENT as int, offset as int) * (subdivisions + 1),
{
    let n = ceil_div(GRID_EXTENT as int, offset as int);
    assert(n >= 0) by (nonlinear_arith)
        requires
            n == (GRID_EXTENT + offset - 1) / (offset as int),
            offset > 0,
    ;
    lemma_blocks_len(Axis::X, offset as int, subdivisions as int, n);
    lemma_blocks_len(Axis::Y, offset as int, subdivisions as int, n);
    assert(n * (subdivisions + 1) + n * (subdivisions + 1) == 2 * n * (subdivisions + 1)) by (nonlinear_arith);
}

} // verus!
