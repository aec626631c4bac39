use find_subimage::Backend;
use jumpheight::locator::{locate_king, strongest};
use jumpheight::matcher::{Finder, MatchResult, PatchType, Template};
use jumpheight::pixels::PixelBuffer;

fn finder() -> Finder {
    Finder::new(Backend::Scalar { threshold: 0.5, step_x: 1, step_y: 1 }).unwrap()
}

fn solid(width: u32, height: u32, rgb: [u8; 3]) -> PixelBuffer {
    PixelBuffer::from_raw(width, height, rgb.repeat((width * height) as usize)).unwrap()
}

fn paint(image: &mut PixelBuffer, x0: u32, y0: u32, block: &PixelBuffer) {
    for y in 0..block.height {
        for x in 0..block.width {
            let src = ((y * block.width + x) * 3) as usize;
            let dst = (((y0 + y) * image.width + x0 + x) * 3) as usize;
            image.pixels[dst..dst + 3].copy_from_slice(&block.pixels[src..src + 3]);
        }
    }
}

#[test]
fn strongest_of_no_candidates_is_none() {
    assert_eq!(strongest(&vec![]), None);
    assert_eq!(strongest(&vec![None, None, None]), None);
}

#[test]
fn strongest_takes_highest_present_score() {
    let candidates = vec![
        Some(MatchResult { x: 1, y: 2, score: 7 }),
        None,
        Some(MatchResult { x: 3, y: 4, score: 9 }),
        Some(MatchResult { x: 5, y: 6, score: 8 }),
    ];
    assert_eq!(strongest(&candidates), Some((3, 4)));
}

#[test]
fn strongest_last_among_equal_scores() {
    let candidates = vec![
        Some(MatchResult { x: 1, y: 1, score: 9 }),
        Some(MatchResult { x: 2, y: 2, score: 9 }),
        None,
    ];
    assert_eq!(strongest(&candidates), Some((2, 2)));
}

#[test]
fn locate_king_picks_the_pose_that_matches_exactly() {
    let head = solid(4, 4, [250, 200, 10]);
    let mut dead = solid(6, 3, [20, 200, 30]);
    paint(&mut dead, 0, 0, &solid(2, 1, [5, 5, 5]));
    let mut frame = solid(40, 30, [60, 60, 60]);
    paint(&mut frame, 12, 17, &dead.mirrored());
    let battery = vec![
        Template::new(head, PatchType::FlipHorizontally),
        Template::new(solid(5, 5, [255, 0, 255]), PatchType::NoFlip),
        Template::new(dead, PatchType::FlipHorizontally),
    ];
    assert_eq!(locate_king(&finder(), &frame, &battery), Some((12, 17)));
}

#[test]
fn locate_king_without_templates_finds_nothing() {
    let frame = solid(10, 10, [1, 2, 3]);
    assert_eq!(locate_king(&finder(), &frame, &vec![]), None);
}

#[test]
fn locate_king_with_oversized_templates_finds_nothing() {
    let frame = solid(10, 10, [1, 2, 3]);
    let battery = vec![Template::new(solid(11, 2, [1, 2, 3]), PatchType::NoFlip)];
    assert_eq!(locate_king(&finder(), &frame, &battery), None);
}
