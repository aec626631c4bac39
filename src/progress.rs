//! Mapping from an area and a local pixel offset to a share of the world's height.

use vstd::prelude::*;

use crate::area::{Area, SCREEN_HEIGHT, TOTAL_SCREENS};

verus! {

/// A percentage held exactly, as `numerator / denominator`.
#[derive(Copy, Clone, Debug, PartialEq, Eq, Structural)]
pub struct Percent {
    pub numerator: u128,
    pub denominator: u128,
}

/// Height of the whole world in pixels.
pub open spec fn world_height() -> int {
    SCREEN_HEIGHT * TOTAL_SCREENS
}

/// World height, in pixels, of a point `local_y` pixels into the area's screen.
pub open spec fn global_height(area: Area, local_y: int) -> int {
    area.offset_spec() + local_y
}

/// Numerator of the progress percentage over the denominator `world_height()`.
pub open spec fn progress_numerator(area: Area, local_y: int) -> int {
    global_height(area, local_y) * 100
}

/// The progress percentage as a fraction over `world_height()`.
pub open spec fn progress_spec(area: Area, local_y: int) -> Percent {
    Percent {
        numerator: progress_numerator(area, local_y) as u128,
        denominator: world_height() as u128,
    }
}

/// Progress through the world as a percentage:
/// `(offset(area) + local_y) * 100 / (SCREEN_HEIGHT * TOTAL_SCREENS)`.
pub fn progress(area: Area, local_y: usize) -> (r: Percent)
    ensures
        r.numerator == progress_numerator(area, local_y as int),
        r.denominator == world_height(),
        r == progress_spec(area, local_y as int),
{
    let height = area.height_offset() as u128 + local_y as u128;
    Percent { numerator: height * 100, denominator: (SCREEN_HEIGHT * TOTAL_SCREENS) as u128 }
}

/// At the top edge of an area's screen (`local_y == 0`) the progress is exactly
/// `offset(area) * 100 / (SCREEN_HEIGHT * TOTAL_SCREENS)`.
pub proof fn lemma_progress_at_area_top(area: Area)
    ensures
        progress_numerator(area, 0) == area.offset_spec() * 100,
{
}

/// For a fixed area, progress grows strictly with the local offset: the two
/// fractions share their denominator and the numerators are strictly ordered.
pub proof fn lemma_progress_strictly_increasing(area: Area, y1: nat, y2: nat)
    requires
        y1 < y2,
    ensures
        progress_numerator(area, y1 as int) < progress_numerator(area, y2 as int),
        progress_numerator(area, y1 as int) * world_height() < progress_numerator(
            area,
            y2 as int,
        ) * world_height(),
{
    assert(progress_numerator(area, y1 as int) * world_height() < progress_numerator(
        area,
        y2 as int,
    ) * world_height()) by (nonlinear_arith)
        requires
            progress_numerator(area, y1 as int) < progress_numerator(area, y2 as int),
            world_height() > 0,
    ;
}

} // verus!
