//! The cell grid laid over a frame, and its occupancy by tracked corners.

use crate::frame::lemma_pixel_index;
use crate::keypoint::Keypoint;
use vstd::arithmetic::div_mod::lemma_fundamental_div_mod_converse;
use vstd::prelude::*;

verus! {

/// A partition of a frame into square cells of side `grid_size`.
///
/// Only whole cells count: `cells_x` by `cells_y` of them, shifted so that
/// the leftover margin is split evenly between the two ends of each axis.
#[derive(Clone, Copy, Debug, PartialEq, Eq, Structural)]
pub struct GridLayout {
    pub grid_size: u32,
    pub x_start: u32,
    pub y_start: u32,
    pub cells_x: u32,
    pub cells_y: u32,
}

/// The layout of a `width` x `height` frame for cells of side `grid_size`.
pub open spec fn grid_layout(height: u32, width: u32, grid_size: u32) -> GridLayout
    recommends
        grid_size >= 1,
{
    GridLayout {
        grid_size,
        x_start: ((width % grid_size) / 2) as u32,
        y_start: ((height % grid_size) / 2) as u32,
        cells_x: (width / grid_size) as u32,
        cells_y: (height / grid_size) as u32,
    }
}

impl GridLayout {
    /// Left edge of the cells in column `i`.
    pub open spec fn origin_x(self, i: int) -> int {
        self.x_start + i * self.grid_size
    }

    /// Top edge of the cells in row `j`.
    pub open spec fn origin_y(self, j: int) -> int {
        self.y_start + j * self.grid_size
    }

    /// Whether `(i, j)` names one of the whole cells.
    pub open spec fn has_cell(self, i: int, j: int) -> bool {
        0 <= i < self.cells_x && 0 <= j < self.cells_y
    }

    /// Whether the pixel `(x, y)` lies in cell `(i, j)`.
    pub open spec fn cell_contains(self, i: int, j: int, x: int, y: int) -> bool {
        &&& self.origin_x(i) <= x < self.origin_x(i) + self.grid_size
        &&& self.origin_y(j) <= y < self.origin_y(j) + self.grid_size
    }

    /// Whether a tracked corner at `(x, y)` is counted at all: it must lie
    /// in the band that starts with the first cell and ends one pixel past
    /// the last one, on both axes. Corners in the margin are ignored.
    pub open spec fn in_seed_band(self, x: int, y: int) -> bool {
        &&& self.x_start <= x < self.origin_x(self.cells_x as int) + 1
        &&& self.y_start <= y < self.origin_y(self.cells_y as int) + 1
    }

    /// Whether a tracked corner counts towards cell `(i, j)`.
    pub open spec fn seeds(self, corner: Keypoint, i: int, j: int) -> bool {
        &&& self.in_seed_band(corner.x as int, corner.y as int)
        &&& (corner.x - self.x_start) / (self.grid_size as int) == i
        &&& (corner.y - self.y_start) / (self.grid_size as int) == j
    }

    /// How many of `corners` count towards cell `(i, j)`.
    pub open spec fn occupancy(self, corners: Seq<Keypoint>, i: int, j: int) -> nat {
        corners.filter(|c: Keypoint| self.seeds(c, i, j)).len()
    }

    /// The layout is the one that `grid_layout` gives for some frame of the
    /// stated size.
    pub open spec fn fits(self, height: u32, width: u32) -> bool {
        &&& self.grid_size >= 1
        &&& self == grid_layout(height, width, self.grid_size)
    }

    /// Computes the layout of a `width` x `height` frame.
    pub fn new(height: u32, width: u32, grid_size: u32) -> (layout: GridLayout)
        requires
            grid_size >= 1,
        ensures
            layout == grid_layout(height, width, grid_size),
            layout.fits(height, width),
    {
        GridLayout {
            grid_size,
            x_start: (width % grid_size) / 2,
            y_start: (height % grid_size) / 2,
            cells_x: width / grid_size,
            cells_y: height / grid_size,
        }
    }
}

/// The whole cells lie inside the frame.
pub proof fn lemma_cells_inside(layout: GridLayout, height: u32, width: u32, i: int, j: int)
    requires
        layout.fits(height, width),
        layout.has_cell(i, j),
    ensures
        0 <= layout.origin_x(i),
        layout.origin_x(i) + layout.grid_size <= width,
        0 <= layout.origin_y(j),
        layout.origin_y(j) + layout.grid_size <= height,
{
    lemma_axis_inside(width, layout.grid_size, i);
    lemma_axis_inside(height, layout.grid_size, j);
}

proof fn lemma_axis_inside(extent: u32, grid_size: u32, i: int)
    requires
        grid_size >= 1,
        0 <= i < extent / grid_size,
    ensures
        0 <= i * grid_size,
        (extent % grid_size) / 2 + i * grid_size + grid_size <= extent,
{
    let g = grid_size as int;
    let n = (extent / grid_size) as int;
    assert(extent == g * n + extent % grid_size) by {
        vstd::arithmetic::div_mod::lemma_fundamental_div_mod(extent as int, g);
    }
    assert(0 <= i * g && i * g + g <= g * n) by (nonlinear_arith)
        requires
            0 <= i < n,
            g >= 1,
    ;
}

/// A pixel lies in at most one cell, and that cell is found by dividing its
/// offset from the first cell by the cell side.
pub proof fn lemma_cell_of_pixel(layout: GridLayout, i: int, j: int, x: int, y: int)
    requires
        layout.grid_size >= 1,
        0 <= i,
        0 <= j,
        layout.cell_contains(i, j, x, y),
    ensures
        (x - layout.x_start) / (layout.grid_size as int) == i,
        (y - layout.y_start) / (layout.grid_size as int) == j,
{
    let g = layout.grid_size as int;
    lemma_fundamental_div_mod_converse(x - layout.x_start, g, i, x - layout.x_start - i * g);
    lemma_fundamental_div_mod_converse(y - layout.y_start, g, j, y - layout.y_start - j * g);
}

/// A cell with occupancy zero is one that no tracked corner counts towards.
pub proof fn lemma_unoccupied(layout: GridLayout, corners: Seq<Keypoint>, i: int, j: int)
    ensures
        layout.occupancy(corners, i, j) == 0 <==> forall|k: int|
            0 <= k < corners.len() ==> !layout.seeds(#[trigger] corners[k], i, j),
{
    let pred = |c: Keypoint| layout.seeds(c, i, j);
    let kept = corners.filter(pred);
    if kept.len() == 0 {
        assert forall|k: int| 0 <= k < corners.len() implies !layout.seeds(
            #[trigger] corners[k],
            i,
            j,
        ) by {
            if layout.seeds(corners[k], i, j) {
                corners.lemma_filter_contains(pred, k);
            }
        }
    } else {
        corners.lemma_filter_pred(pred, 0);
        corners.lemma_filter_contains_rev(pred, kept[0]);
    }
}

/// Counting one more corner changes the occupancy of the cell it counts
/// towards by one, and of no other.
proof fn lemma_occupancy_push(
    layout: GridLayout,
    corners: Seq<Keypoint>,
    corner: Keypoint,
    i: int,
    j: int,
)
    ensures
        layout.occupancy(corners.push(corner), i, j) == layout.occupancy(corners, i, j) + (if layout.seeds(
            corner,
            i,
            j,
        ) {
            1nat
        } else {
            0nat
        }),
        layout.occupancy(corners, i, j) <= corners.len(),
{
    reveal(Seq::filter);
    let pred = |c: Keypoint| layout.seeds(c, i, j);
    assert(corners.push(corner).drop_last() == corners);
    corners.lemma_filter_len(pred);
}

/// A corner that divides into a whole cell lies inside the seeding band.
proof fn lemma_axis_in_band(start: u32, grid_size: u32, cells: u32, at: u32, i: int)
    requires
        grid_size >= 1,
        start <= at,
        (at - start) / (grid_size as int) == i,
        0 <= i < cells,
    ensures
        at < start + cells * grid_size + 1,
{
    let g = grid_size as int;
    let d = at - start;
    vstd::arithmetic::div_mod::lemma_fundamental_div_mod(d, g);
    assert(g * i + g <= cells * g) by (nonlinear_arith)
        requires
            0 <= i < cells,
            g >= 1,
    ;
}

/// Counts, for every whole cell, the tracked corners that fall in it.
///
/// The counters come back row by row: cell `(i, j)` is at index
/// `j * cells_x + i`.
pub fn seed_occupancy(layout: &GridLayout, corners: &Vec<Keypoint>) -> (counts: Vec<usize>)
    requires
        layout.grid_size >= 1,
        layout.cells_x * layout.cells_y <= usize::MAX,
    ensures
        counts@.len() == layout.cells_x * layout.cells_y,
        forall|i: int, j: int|
            layout.has_cell(i, j) ==> counts@[j * layout.cells_x + i] == #[trigger] layout.occupancy(
                corners@,
                i,
                j,
            ),
{
    let columns: usize = layout.cells_x as usize;
    let total: usize = columns * (layout.cells_y as usize);
    let mut counts: Vec<usize> = Vec::new();
    while counts.len() < total
        invariant
            counts@.len() <= total,
            forall|k: int| 0 <= k < counts@.len() ==> counts@[k] == 0,
        decreases total - counts@.len(),
    {
        counts.push(0);
    }
    let ghost none = corners@.take(0);
    assert forall|i: int, j: int| layout.has_cell(i, j) implies counts@[j * layout.cells_x + i]
        == #[trigger] layout.occupancy(none, i, j) by {
        lemma_pixel_index(layout.cells_x as int, layout.cells_y as int, i, j);
        reveal(Seq::filter);
    }
    let mut seen: usize = 0;
    while seen < corners.len()
        invariant
            layout.grid_size >= 1,
            columns == layout.cells_x,
            total == layout.cells_x * layout.cells_y,
            counts@.len() == total,
            0 <= seen <= corners.len(),
            forall|i: int, j: int|
                layout.has_cell(i, j) ==> counts@[j * layout.cells_x + i]
                    == #[trigger] layout.occupancy(corners@.take(seen as int), i, j),
        decreases corners.len() - seen,
    {
        let corner: Keypoint = corners[seen];
        let ghost before = corners@.take(seen as int);
        let ghost after = corners@.take(seen + 1);
        let ghost old_counts = counts@;
        proof {
            assert(after == before.push(corner));
            assert forall|i: int, j: int| layout.has_cell(i, j) implies #[trigger] layout.occupancy(
                after,
                i,
                j,
            ) == layout.occupancy(before, i, j) + (if layout.seeds(corner, i, j) {
                1nat
            } else {
                0nat
            }) by {
                lemma_occupancy_push(*layout, before, corner, i, j);
            }
        }
        if corner.x >= layout.x_start && corner.y >= layout.y_start {
            let column: u32 = (corner.x - layout.x_start) / layout.grid_size;
            let row: u32 = (corner.y - layout.y_start) / layout.grid_size;
            if column < layout.cells_x && row < layout.cells_y {
                proof {
                    lemma_pixel_index(
                        layout.cells_x as int,
                        layout.cells_y as int,
                        column as int,
                        row as int,
                    );
                    lemma_axis_in_band(
                        layout.x_start,
                        layout.grid_size,
                        layout.cells_x,
                        corner.x,
                        column as int,
                    );
                    lemma_axis_in_band(
                        layout.y_start,
                        layout.grid_size,
                        layout.cells_y,
                        corner.y,
                        row as int,
                    );
                    lemma_occupancy_push(*layout, before, corner, column as int, row as int);
                }
                let at: usize = row as usize * columns + column as usize;
                let count: usize = counts[at];
                counts.set(at, count + 1);
                proof {
                    assert forall|i: int, j: int| layout.has_cell(i, j) implies counts@[j
                        * layout.cells_x + i] == #[trigger] layout.occupancy(after, i, j) by {
                        lemma_pixel_index(
                            layout.cells_x as int,
                            layout.cells_y as int,
                            i,
                            j,
                        );
                    }
                }
            }
        }
        seen += 1;
    }
    assert(corners@.take(seen as int) == corners@);
    counts
}

} // verus!
