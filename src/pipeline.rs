//! Per-frame orchestration: classify, locate, then map to progress.

use vstd::prelude::*;

use crate::area::Area;
use crate::catalog::{is_nearest, locate_screen, Catalog};
use crate::hashing::perceptual_hash_of;
use crate::locator::{locate_king, locate_spec};
use crate::matcher::{Finder, Template};
use crate::pixels::PixelBuffer;
use crate::progress::{progress, progress_spec, Percent};

verus! {

/// One output of video mode: the progress read from one frame.
#[derive(Copy, Clone, Debug, PartialEq, Eq, Structural)]
pub struct ProgressSample {
    pub frame_index: usize,
    pub progress: Percent,
}

/// The sample for a frame classified as `area` with the character at
/// `position`; none when the character was not found.
pub open spec fn sample_spec(frame_index: usize, area: Area, position: Option<(usize, usize)>) -> Option<
    ProgressSample,
> {
    match position {
        None => None,
        Some(p) => Some(ProgressSample { frame_index, progress: progress_spec(area, p.1 as int) }),
    }
}

/// Video mode reads the first frame and every `skip_every`-th one after it.
pub fn is_sampled(frame_index: usize, skip_every: usize) -> (r: bool)
    requires
        skip_every > 0,
    ensures
        r == (frame_index == 0 || frame_index % skip_every == 0),
{
    frame_index == 0 || frame_index % skip_every == 0
}

/// The sample for a frame classified as `area`, given where the character was
/// found; no sample when it was not found.
pub fn sample_of(frame_index: usize, area: Area, position: Option<(usize, usize)>) -> (r: Option<
    ProgressSample,
>)
    ensures
        r == sample_spec(frame_index, area, position),
{
    match position {
        None => None,
        Some(p) => Some(ProgressSample { frame_index, progress: progress(area, p.1) }),
    }
}

/// Runs the pipeline on one frame: classifies it against the catalog, locates
/// the character with the template battery, and maps the character's row to
/// progress through the classified area. `None` when the frame is empty or the
/// character was not found.
pub fn analyze_frame(
    finder: &Finder,
    catalog: &Catalog,
    battery: &Vec<Template>,
    frame_index: usize,
    frame: &PixelBuffer,
) -> (r: Option<ProgressSample>)
    requires
        finder.wf(),
        catalog.wf(),
        frame.wf(),
        forall|i: int| 0 <= i < battery@.len() ==> #[trigger] battery@[i].wf(),
    ensures
        frame.width == 0 || frame.height == 0 ==> r is None,
        frame.width > 0 && frame.height > 0 ==> exists|i: int|
            is_nearest(
                catalog.scenes@,
                perceptual_hash_of(frame.pixels@, frame.width, frame.height),
                i,
            ) && r == sample_spec(
                frame_index,
                #[trigger] catalog.scenes@[i].area,
                locate_spec(*finder, *frame, battery@),
            ),
        frame.width > 0 && frame.height > 0 ==> (r is Some <==> locate_spec(
            *finder,
            *frame,
            battery@,
        ) is Some),
{
    if frame.width == 0 || frame.height == 0 {
        return None;
    }
    let screen = locate_screen(catalog, frame);
    let position = locate_king(finder, frame, battery);
    sample_of(frame_index, screen.area, position)
}

} // verus!
