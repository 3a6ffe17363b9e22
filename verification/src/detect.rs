//! Grid-constrained adaptive keypoint detection.
//!
//! The frame is partitioned into cells. A cell that already holds a tracked
//! corner is left alone; every other cell is searched with the FAST detector
//! at a falling threshold until it has yielded its quota of corners that keep
//! the edge margin, or the threshold has reached its floor.

use crate::fast::{corners_fast9, fast9_corner_in_frame, fast9_corners};
use crate::frame::{lemma_pixel_index, FrameView, GrayFrame};
use crate::grid::{
    grid_layout, lemma_cell_of_pixel, lemma_cells_inside, lemma_unoccupied, seed_occupancy,
    GridLayout,
};
use crate::keypoint::{point_in_bound, shifted, within_margin, Keypoint};
use crate::ranking::{lemma_sorted_by_score_preserves, sort_by_score, sorted_by_score};
use vstd::prelude::*;

verus! {

/// Margin, in pixels, that every accepted keypoint keeps from the frame edge.
pub const EDGE_THRESHOLD: u32 = 19;

/// Threshold of the first FAST pass over a cell.
pub const FAST_THRESHOLD_START: u8 = 40;

/// Amount by which the threshold falls from one pass to the next.
pub const FAST_THRESHOLD_STEP: u8 = 5;

/// No pass runs below this threshold.
pub const FAST_THRESHOLD_FLOOR: u8 = 10;

/// Number of passes a cell can get: one per threshold from the start down to
/// the floor.
pub open spec fn pass_count() -> nat {
    ((FAST_THRESHOLD_START - FAST_THRESHOLD_FLOOR) / (FAST_THRESHOLD_STEP as int) + 1) as nat
}

/// Threshold of pass number `pass`, counted from zero.
pub open spec fn pass_threshold(pass: nat) -> u8
    recommends
        pass < pass_count(),
{
    (FAST_THRESHOLD_START - pass * FAST_THRESHOLD_STEP) as u8
}

/// The first `limit` elements of `corners`, or all of them if there are
/// fewer.
pub open spec fn take_up_to(corners: Seq<Keypoint>, limit: nat) -> Seq<Keypoint> {
    if limit < corners.len() {
        corners.take(limit as int)
    } else {
        corners
    }
}

/// `corners` moved by the cell origin, those that break the edge margin of
/// the `width` x `height` frame dropped.
pub open spec fn kept_in_frame(
    corners: Seq<Keypoint>,
    origin_x: u32,
    origin_y: u32,
    height: u32,
    width: u32,
) -> Seq<Keypoint> {
    corners.map_values(|k: Keypoint| shifted(k, origin_x, origin_y)).filter(
        |k: Keypoint| within_margin(k, height, width, EDGE_THRESHOLD),
    )
}

/// What one pass over a cell contributes, given the corners the detector
/// found in it: the candidates by ascending score, in frame coordinates,
/// without those that break the edge margin.
pub open spec fn accepted_in_pass(
    candidates: Seq<Keypoint>,
    origin_x: u32,
    origin_y: u32,
    height: u32,
    width: u32,
) -> Seq<Keypoint> {
    kept_in_frame(sorted_by_score(candidates), origin_x, origin_y, height, width)
}

proof fn lemma_kept_push(
    corners: Seq<Keypoint>,
    last: Keypoint,
    origin_x: u32,
    origin_y: u32,
    height: u32,
    width: u32,
)
    ensures
        kept_in_frame(corners.push(last), origin_x, origin_y, height, width) == if within_margin(
            shifted(last, origin_x, origin_y),
            height,
            width,
            EDGE_THRESHOLD,
        ) {
            kept_in_frame(corners, origin_x, origin_y, height, width).push(
                shifted(last, origin_x, origin_y),
            )
        } else {
            kept_in_frame(corners, origin_x, origin_y, height, width)
        },
{
    reveal(Seq::filter);
    let shift = |k: Keypoint| shifted(k, origin_x, origin_y);
    assert(corners.push(last).map_values(shift).drop_last() == corners.map_values(shift));
}

/// What is kept of a prefix is a prefix of what is kept of the whole.
proof fn lemma_kept_prefix(
    corners: Seq<Keypoint>,
    count: int,
    origin_x: u32,
    origin_y: u32,
    height: u32,
    width: u32,
)
    requires
        0 <= count <= corners.len(),
    ensures
        kept_in_frame(corners.take(count), origin_x, origin_y, height, width).len()
            <= kept_in_frame(corners, origin_x, origin_y, height, width).len(),
        kept_in_frame(corners, origin_x, origin_y, height, width).take(
            kept_in_frame(corners.take(count), origin_x, origin_y, height, width).len() as int,
        ) == kept_in_frame(corners.take(count), origin_x, origin_y, height, width),
    decreases corners.len() - count,
{
    if count == corners.len() {
        assert(corners.take(count) == corners);
    } else {
        lemma_kept_prefix(corners, count + 1, origin_x, origin_y, height, width);
        lemma_kept_push(corners.take(count), corners[count], origin_x, origin_y, height, width);
        assert(corners.take(count + 1) == corners.take(count).push(corners[count]));
        let shorter = kept_in_frame(corners.take(count), origin_x, origin_y, height, width);
        let longer = kept_in_frame(corners.take(count + 1), origin_x, origin_y, height, width);
        let whole = kept_in_frame(corners, origin_x, origin_y, height, width);
        assert(whole.take(longer.len() as int).take(shorter.len() as int) == whole.take(
            shorter.len() as int,
        ));
    }
}

/// Sorts the corners found in a cell, moves them into frame coordinates and
/// keeps those that respect the edge margin, stopping once `room` of them
/// have been kept.
pub fn accept_candidates(
    candidates: &Vec<Keypoint>,
    origin_x: u32,
    origin_y: u32,
    height: u32,
    width: u32,
    room: u32,
) -> (accepted: Vec<Keypoint>)
    requires
        forall|i: int|
            0 <= i < candidates@.len() ==> (#[trigger] candidates@[i]).x + origin_x <= u32::MAX
                && candidates@[i].y + origin_y <= u32::MAX,
    ensures
        accepted@ == take_up_to(
            accepted_in_pass(candidates@, origin_x, origin_y, height, width),
            room as nat,
        ),
        forall|i: int|
            0 <= i < accepted@.len() ==> within_margin(
                #[trigger] accepted@[i],
                height,
                width,
                EDGE_THRESHOLD,
            ) && exists|j: int|
                0 <= j < candidates@.len() && accepted@[i] == shifted(
                    #[trigger] candidates@[j],
                    origin_x,
                    origin_y,
                ),
{
    let sorted: Vec<Keypoint> = sort_by_score(candidates);
    let ghost from_candidates = |k: Keypoint| candidates@.contains(k);
    proof {
        lemma_sorted_by_score_preserves(candidates@, from_candidates);
    }
    let mut accepted: Vec<Keypoint> = Vec::new();
    let mut added: u32 = 0;
    let mut next: usize = 0;
    while next < sorted.len() && added < room
        invariant
            sorted@ == sorted_by_score(candidates@),
            forall|i: int| 0 <= i < sorted@.len() ==> candidates@.contains(#[trigger] sorted@[i]),
            forall|i: int|
                0 <= i < candidates@.len() ==> (#[trigger] candidates@[i]).x + origin_x <= u32::MAX
                    && candidates@[i].y + origin_y <= u32::MAX,
            0 <= next <= sorted.len(),
            added == accepted@.len(),
            added <= room,
            accepted@ == kept_in_frame(sorted@.take(next as int), origin_x, origin_y, height, width),
            forall|i: int|
                0 <= i < accepted@.len() ==> within_margin(
                    #[trigger] accepted@[i],
                    height,
                    width,
                    EDGE_THRESHOLD,
                ) && exists|j: int|
                    0 <= j < candidates@.len() && accepted@[i] == shifted(
                        #[trigger] candidates@[j],
                        origin_x,
                        origin_y,
                    ),
        decreases sorted.len() - next,
    {
        let found: Keypoint = sorted[next];
        proof {
            lemma_kept_push(
                sorted@.take(next as int),
                found,
                origin_x,
                origin_y,
                height,
                width,
            );
            assert(sorted@.take(next + 1) == sorted@.take(next as int).push(found));
        }
        let point = Keypoint {
            x: found.x + origin_x,
            y: found.y + origin_y,
            score_bits: found.score_bits,
        };
        if point_in_bound(&point, height, width, EDGE_THRESHOLD) {
            accepted.push(point);
            added += 1;
        }
        next += 1;
    }
    proof {
        lemma_kept_prefix(sorted@, next as int, origin_x, origin_y, height, width);
        if next == sorted.len() {
            assert(sorted@.take(next as int) == sorted@);
        }
    }
    accepted
}

/// What pass number `pass` over the cell at `(origin_x, origin_y)`
/// contributes: the detector runs on the cell alone, at that pass's
/// threshold.
pub open spec fn pass_yield(
    frame: FrameView,
    origin_x: u32,
    origin_y: u32,
    grid_size: u32,
    pass: nat,
) -> Seq<Keypoint> {
    accepted_in_pass(
        fast9_corners(
            grid_size,
            grid_size,
            frame.crop(origin_x as int, origin_y as int, grid_size as nat, grid_size as nat).pixels,
            pass_threshold(pass),
        ),
        origin_x,
        origin_y,
        frame.height as u32,
        frame.width as u32,
    )
}

/// The contributions of the first `passes` passes over a cell, one after
/// the other.
pub open spec fn passes_yield(
    frame: FrameView,
    origin_x: u32,
    origin_y: u32,
    grid_size: u32,
    passes: nat,
) -> Seq<Keypoint>
    decreases passes,
{
    if passes == 0 {
        Seq::empty()
    } else {
        passes_yield(frame, origin_x, origin_y, grid_size, (passes - 1) as nat) + pass_yield(
            frame,
            origin_x,
            origin_y,
            grid_size,
            (passes - 1) as nat,
        )
    }
}

/// What an empty cell yields: the first `quota` keypoints that its passes
/// contribute, taken in pass order.
pub open spec fn cell_yield(
    frame: FrameView,
    origin_x: u32,
    origin_y: u32,
    grid_size: u32,
    quota: u32,
) -> Seq<Keypoint> {
    take_up_to(passes_yield(frame, origin_x, origin_y, grid_size, pass_count()), quota as nat)
}

/// Earlier passes are a prefix of later ones.
proof fn lemma_passes_prefix(
    frame: FrameView,
    origin_x: u32,
    origin_y: u32,
    grid_size: u32,
    fewer: nat,
    more: nat,
)
    requires
        fewer <= more,
    ensures
        passes_yield(frame, origin_x, origin_y, grid_size, fewer).len() <= passes_yield(
            frame,
            origin_x,
            origin_y,
            grid_size,
            more,
        ).len(),
        passes_yield(frame, origin_x, origin_y, grid_size, more).take(
            passes_yield(frame, origin_x, origin_y, grid_size, fewer).len() as int,
        ) == passes_yield(frame, origin_x, origin_y, grid_size, fewer),
    decreases more - fewer,
{
    if fewer < more {
        lemma_passes_prefix(frame, origin_x, origin_y, grid_size, fewer, (more - 1) as nat);
        let short = passes_yield(frame, origin_x, origin_y, grid_size, fewer);
        let middle = passes_yield(frame, origin_x, origin_y, grid_size, (more - 1) as nat);
        let long = passes_yield(frame, origin_x, origin_y, grid_size, more);
        assert(long.take(middle.len() as int).take(short.len() as int) == long.take(
            short.len() as int,
        ));
    }
}

/// Searches one cell: runs the detector at a falling threshold and gathers
/// the accepted corners until `quota` is met or the threshold floor is
/// passed.
pub fn detect_in_cell(
    frame: &GrayFrame,
    origin_x: u32,
    origin_y: u32,
    grid_size: u32,
    quota: u32,
) -> (found: Vec<Keypoint>)
    requires
        frame@.contains_rect(origin_x as int, origin_y as int, grid_size as int, grid_size as int),
    ensures
        found@ == cell_yield(frame@, origin_x, origin_y, grid_size, quota),
        found@.len() <= quota,
        forall|i: int|
            0 <= i < found@.len() ==> {
                &&& within_margin(
                    #[trigger] found@[i],
                    frame@.height as u32,
                    frame@.width as u32,
                    EDGE_THRESHOLD,
                )
                &&& origin_x <= found@[i].x < origin_x + grid_size
                &&& origin_y <= found@[i].y < origin_y + grid_size
            },
{
    proof {
        use_type_invariant(frame);
    }
    let height: u32 = frame.height();
    let width: u32 = frame.width();
    let cell: GrayFrame = frame.crop(origin_x, origin_y, grid_size, grid_size);
    let mut found: Vec<Keypoint> = Vec::new();
    let mut added: u32 = 0;
    let mut threshold: u8 = FAST_THRESHOLD_START;
    let ghost mut pass: nat = 0;
    while added < quota && threshold >= FAST_THRESHOLD_FLOOR
        invariant
            frame@.wf(),
            frame@.contains_rect(
                origin_x as int,
                origin_y as int,
                grid_size as int,
                grid_size as int,
            ),
            height == frame@.height,
            width == frame@.width,
            cell@ == frame@.crop(
                origin_x as int,
                origin_y as int,
                grid_size as nat,
                grid_size as nat,
            ),
            pass <= pass_count(),
            threshold == FAST_THRESHOLD_START - pass * FAST_THRESHOLD_STEP,
            added == found@.len(),
            added <= quota,
            found@ == take_up_to(
                passes_yield(frame@, origin_x, origin_y, grid_size, pass),
                quota as nat,
            ),
            forall|i: int|
                0 <= i < found@.len() ==> {
                    &&& within_margin(#[trigger] found@[i], height, width, EDGE_THRESHOLD)
                    &&& origin_x <= found@[i].x < origin_x + grid_size
                    &&& origin_y <= found@[i].y < origin_y + grid_size
                },
        decreases threshold,
    {
        let corners: Vec<Keypoint> = corners_fast9(&cell, threshold);
        let mut accepted: Vec<Keypoint> = accept_candidates(
            &corners,
            origin_x,
            origin_y,
            height,
            width,
            quota - added,
        );
        proof {
            // A corner of the cell, moved by the cell origin, lies in the
            // cell's place in the frame.
            assert forall|i: int| 0 <= i < accepted@.len() implies origin_x <= (
            #[trigger] accepted@[i]).x < origin_x + grid_size && origin_y <= accepted@[i].y
                < origin_y + grid_size by {
                let j = choose|j: int|
                    0 <= j < corners@.len() && accepted@[i] == shifted(
                        #[trigger] corners@[j],
                        origin_x,
                        origin_y,
                    );
                assert(fast9_corner_in_frame(corners@[j], cell@.width, cell@.height));
            }
        }
        added = added + accepted.len() as u32;
        found.append(&mut accepted);
        threshold = threshold - FAST_THRESHOLD_STEP;
        proof {
            pass = pass + 1;
        }
    }
    proof {
        // Once the quota is met, later passes cannot change the first
        // `quota` keypoints.
        lemma_passes_prefix(frame@, origin_x, origin_y, grid_size, pass, pass_count());
    }
    found
}

/// What cell `(i, j)` of the grid contributes: nothing if a tracked corner
/// already counts towards it, otherwise what a search of the cell yields.
pub open spec fn cell_output(
    frame: FrameView,
    layout: GridLayout,
    existing: Seq<Keypoint>,
    quota: u32,
    i: int,
    j: int,
) -> Seq<Keypoint> {
    if layout.occupancy(existing, i, j) > 0 {
        Seq::empty()
    } else {
        cell_yield(
            frame,
            layout.origin_x(i) as u32,
            layout.origin_y(j) as u32,
            layout.grid_size,
            quota,
        )
    }
}

/// The contributions of the first `count` cells. Cells are visited column
/// by column, each column from the top down.
pub open spec fn cells_output(
    frame: FrameView,
    layout: GridLayout,
    existing: Seq<Keypoint>,
    quota: u32,
    count: nat,
) -> Seq<Keypoint>
    decreases count,
{
    if count == 0 {
        Seq::empty()
    } else {
        cells_output(frame, layout, existing, quota, (count - 1) as nat) + cell_output(
            frame,
            layout,
            existing,
            quota,
            (count - 1) / (layout.cells_y as int),
            (count - 1) % (layout.cells_y as int),
        )
    }
}

/// The keypoints that detection adds to a frame: the contributions of all
/// whole cells of its grid, in visiting order.
pub open spec fn detected_keypoints(
    frame: FrameView,
    grid_size: u32,
    existing: Seq<Keypoint>,
    quota: u32,
) -> Seq<Keypoint> {
    let layout = grid_layout(frame.height as u32, frame.width as u32, grid_size);
    cells_output(frame, layout, existing, quota, (layout.cells_x * layout.cells_y) as nat)
}

/// The keypoint lies in a whole cell of the grid towards which no tracked
/// corner counts.
pub open spec fn in_vacant_cell(layout: GridLayout, existing: Seq<Keypoint>, keypoint: Keypoint) -> bool {
    exists|i: int, j: int|
        {
            &&& layout.has_cell(i, j)
            &&& #[trigger] layout.cell_contains(i, j, keypoint.x as int, keypoint.y as int)
            &&& layout.occupancy(existing, i, j) == 0
        }
}

/// Occupied cells receive nothing: a corner that the grid counts never
/// shares its cell with a keypoint found in a vacant one.
pub proof fn lemma_vacant_cell_excludes_counted_corners(
    layout: GridLayout,
    existing: Seq<Keypoint>,
    found: Keypoint,
    k: int,
)
    requires
        layout.grid_size >= 1,
        in_vacant_cell(layout, existing, found),
        0 <= k < existing.len(),
    ensures
        !layout.seeds(
            existing[k],
            (found.x - layout.x_start) / (layout.grid_size as int),
            (found.y - layout.y_start) / (layout.grid_size as int),
        ),
{
    let (i, j) = choose|i: int, j: int|
        {
            &&& layout.has_cell(i, j)
            &&& #[trigger] layout.cell_contains(i, j, found.x as int, found.y as int)
            &&& layout.occupancy(existing, i, j) == 0
        };
    lemma_cell_of_pixel(layout, i, j, found.x as int, found.y as int);
    lemma_unoccupied(layout, existing, i, j);
}

/// Detects keypoints on a frame under the grid constraint.
///
/// Cells that hold a tracked corner are skipped. Each remaining cell yields
/// at most `num_points_in_cell` keypoints; all of them keep the edge margin.
pub fn detect_key_points(
    image: &GrayFrame,
    grid_size: u32,
    current_corners: &Vec<Keypoint>,
    num_points_in_cell: u32,
) -> (detected: Vec<Keypoint>)
    requires
        grid_size >= 1,
    ensures
        detected@ == detected_keypoints(image@, grid_size, current_corners@, num_points_in_cell),
        forall|k: int|
            0 <= k < detected@.len() ==> within_margin(
                #[trigger] detected@[k],
                image@.height as u32,
                image@.width as u32,
                EDGE_THRESHOLD,
            ),
        forall|k: int|
            0 <= k < detected@.len() ==> in_vacant_cell(
                grid_layout(image@.height as u32, image@.width as u32, grid_size),
                current_corners@,
                #[trigger] detected@[k],
            ),
{
    proof {
        use_type_invariant(image);
    }
    let height: u32 = image.height();
    let width: u32 = image.width();
    let pixel_count: usize = image.as_raw().len();
    let layout: GridLayout = GridLayout::new(height, width, grid_size);
    proof {
        assert(layout.cells_x <= width && layout.cells_y <= height) by {
            vstd::arithmetic::div_mod::lemma_div_is_ordered_by_denominator(
                width as int,
                1,
                grid_size as int,
            );
            vstd::arithmetic::div_mod::lemma_div_is_ordered_by_denominator(
                height as int,
                1,
                grid_size as int,
            );
        }
        assert(layout.cells_x * layout.cells_y <= width * height) by (nonlinear_arith)
            requires
                0 <= layout.cells_x <= width,
                0 <= layout.cells_y <= height,
        ;
    }
    let counts: Vec<usize> = seed_occupancy(&layout, current_corners);
    let mut detected: Vec<Keypoint> = Vec::new();
    let mut column: u32 = 0;
    while column < layout.cells_x
        invariant
            image@.wf(),
            height == image@.height,
            width == image@.width,
            layout.fits(height, width),
            layout.grid_size == grid_size,
            counts@.len() == layout.cells_x * layout.cells_y,
            layout.cells_x * layout.cells_y <= usize::MAX,
            forall|i: int, j: int|
                layout.has_cell(i, j) ==> counts@[j * layout.cells_x + i]
                    == #[trigger] layout.occupancy(current_corners@, i, j),
            0 <= column <= layout.cells_x,
            detected@ == cells_output(
                image@,
                layout,
                current_corners@,
                num_points_in_cell,
                (column * layout.cells_y) as nat,
            ),
            forall|k: int|
                0 <= k < detected@.len() ==> within_margin(
                    #[trigger] detected@[k],
                    height,
                    width,
                    EDGE_THRESHOLD,
                ),
            forall|k: int|
                0 <= k < detected@.len() ==> in_vacant_cell(
                    layout,
                    current_corners@,
                    #[trigger] detected@[k],
                ),
        decreases layout.cells_x - column,
    {
        let mut row: u32 = 0;
        while row < layout.cells_y
            invariant
                image@.wf(),
                height == image@.height,
                width == image@.width,
                layout.fits(height, width),
                layout.grid_size == grid_size,
                counts@.len() == layout.cells_x * layout.cells_y,
                layout.cells_x * layout.cells_y <= usize::MAX,
                forall|i: int, j: int|
                    layout.has_cell(i, j) ==> counts@[j * layout.cells_x + i]
                        == #[trigger] layout.occupancy(current_corners@, i, j),
                0 <= column < layout.cells_x,
                0 <= row <= layout.cells_y,
                detected@ == cells_output(
                    image@,
                    layout,
                    current_corners@,
                    num_points_in_cell,
                    (column * layout.cells_y + row) as nat,
                ),
                forall|k: int|
                    0 <= k < detected@.len() ==> within_margin(
                        #[trigger] detected@[k],
                        height,
                        width,
                        EDGE_THRESHOLD,
                    ),
                forall|k: int|
                    0 <= k < detected@.len() ==> in_vacant_cell(
                        layout,
                        current_corners@,
                        #[trigger] detected@[k],
                    ),
            decreases layout.cells_y - row,
        {
            proof {
                lemma_cells_inside(layout, height, width, column as int, row as int);
                lemma_pixel_index(
                    layout.cells_x as int,
                    layout.cells_y as int,
                    column as int,
                    row as int,
                );
                lemma_pixel_index(
                    layout.cells_y as int,
                    layout.cells_x as int,
                    row as int,
                    column as int,
                );
            }
            let origin_x: u32 = layout.x_start + column * grid_size;
            let origin_y: u32 = layout.y_start + row * grid_size;
            let at: usize = row as usize * layout.cells_x as usize + column as usize;
            let ghost before = detected@;
            let ghost visited: int = column * layout.cells_y + row;
            if counts[at] == 0 {
                let mut found: Vec<Keypoint> = detect_in_cell(
                    image,
                    origin_x,
                    origin_y,
                    grid_size,
                    num_points_in_cell,
                );
                proof {
                    assert forall|k: int| 0 <= k < found@.len() implies in_vacant_cell(
                        layout,
                        current_corners@,
                        #[trigger] found@[k],
                    ) by {
                        assert(layout.cell_contains(
                            column as int,
                            row as int,
                            found@[k].x as int,
                            found@[k].y as int,
                        ));
                    }
                }
                detected.append(&mut found);
            }
            proof {
                assert(detected@ == before + cell_output(
                    image@,
                    layout,
                    current_corners@,
                    num_points_in_cell,
                    column as int,
                    row as int,
                ));
                assert(cells_output(
                    image@,
                    layout,
                    current_corners@,
                    num_points_in_cell,
                    (visited + 1) as nat,
                ) == detected@);
            }
            row += 1;
        }
        proof {
            assert((column + 1) * layout.cells_y == column * layout.cells_y + layout.cells_y)
                by (nonlinear_arith);
        }
        column += 1;
    }
    detected
}

} // verus!
