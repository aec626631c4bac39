use find_subimage::Backend;
use jumpheight::matcher::{best_match, find, find_patch, Finder, MatchResult, PatchType, Template};
use jumpheight::pixels::PixelBuffer;

const MAGENTA: [u8; 3] = [255, 0, 255];

fn finder() -> Finder {
    Finder::new(Backend::Scalar { threshold: 0.5, step_x: 1, step_y: 1 }).unwrap()
}

fn solid(width: u32, height: u32, rgb: [u8; 3]) -> PixelBuffer {
    PixelBuffer::from_raw(width, height, rgb.repeat((width * height) as usize)).unwrap()
}

fn paint(image: &mut PixelBuffer, x0: u32, y0: u32, block: &PixelBuffer) {
    for y in 0..block.height {
        for x in 0..block.width {
            let src = ((y * block.width + x) * 3) as usize;
            let dst = (((y0 + y) * image.width + x0 + x) * 3) as usize;
            image.pixels[dst..dst + 3].copy_from_slice(&block.pixels[src..src + 3]);
        }
    }
}

/// An asymmetric 6 x 4 shape: a bar with a notch on its left end.
fn pose() -> PixelBuffer {
    let mut image = solid(6, 4, [200, 180, 20]);
    paint(&mut image, 0, 0, &solid(2, 2, [10, 10, 120]));
    image
}

#[test]
fn magenta_block_is_found_at_its_origin_with_maximal_score() {
    let mut source = solid(100, 100, [0, 0, 0]);
    paint(&mut source, 40, 60, &solid(10, 10, MAGENTA));
    let template = Template::new(solid(10, 10, MAGENTA), PatchType::NoFlip);
    let f = finder();
    let results = find(&f, &source, &template);
    assert!(results.contains(&MatchResult { x: 40, y: 60, score: u32::MAX }));
    assert_eq!(best_match(&results), Some(MatchResult { x: 40, y: 60, score: u32::MAX }));
    assert_eq!(
        find_patch(&f, &source, &template),
        Some(MatchResult { x: 40, y: 60, score: u32::MAX })
    );
}

#[test]
fn exact_subregion_is_found_at_its_origin() {
    let mut source = solid(30, 20, [90, 90, 90]);
    paint(&mut source, 11, 7, &pose());
    let template = Template::new(pose(), PatchType::NoFlip);
    let best = find_patch(&finder(), &source, &template).unwrap();
    assert_eq!((best.x, best.y, best.score), (11, 7, u32::MAX));
}

#[test]
fn template_larger_than_source_finds_nothing() {
    let source = solid(20, 20, MAGENTA);
    let f = finder();
    let wide = Template::new(solid(21, 5, MAGENTA), PatchType::FlipHorizontally);
    let tall = Template::new(solid(5, 21, MAGENTA), PatchType::NoFlip);
    assert!(find(&f, &source, &wide).is_empty());
    assert!(find(&f, &source, &tall).is_empty());
    assert_eq!(find_patch(&f, &source, &wide), None);
}

#[test]
fn empty_template_finds_nothing() {
    let source = solid(20, 20, MAGENTA);
    let empty = Template::new(PixelBuffer::from_raw(0, 3, vec![]).unwrap(), PatchType::NoFlip);
    assert!(find(&finder(), &source, &empty).is_empty());
}

#[test]
fn mirrored_pose_is_found_only_with_flip() {
    let mut source = solid(30, 20, [90, 90, 90]);
    paint(&mut source, 5, 9, &pose().mirrored());
    let f = finder();
    let plain = Template::new(pose(), PatchType::NoFlip);
    let flipping = Template::new(pose(), PatchType::FlipHorizontally);
    assert!(flipping.mirror.is_some());
    assert!(plain.mirror.is_none());
    let with_flip = find_patch(&f, &source, &flipping).unwrap();
    assert_eq!((with_flip.x, with_flip.y, with_flip.score), (5, 9, u32::MAX));
    let without = find_patch(&f, &source, &plain);
    assert!(without.map_or(true, |m| m.score < u32::MAX));
}

#[test]
fn template_keeps_its_image_when_mirroring() {
    let t = Template::new(pose(), PatchType::FlipHorizontally);
    assert_eq!(t.image.pixels, pose().pixels);
    assert_eq!(t.mirror.unwrap().pixels, pose().mirrored().pixels);
}

#[test]
fn best_match_takes_highest_score_last_on_ties() {
    assert_eq!(best_match(&vec![]), None);
    let a = MatchResult { x: 1, y: 1, score: 10 };
    let b = MatchResult { x: 2, y: 2, score: 30 };
    let c = MatchResult { x: 3, y: 3, score: 30 };
    let d = MatchResult { x: 4, y: 4, score: 5 };
    assert_eq!(best_match(&vec![a, b, c, d]), Some(c));
    assert_eq!(best_match(&vec![d, a]), Some(a));
    assert_eq!(best_match(&vec![d]), Some(d));
}

#[test]
fn subregion_at_bottom_right_corner_is_found() {
    let mut source = solid(30, 20, [90, 90, 90]);
    paint(&mut source, 24, 16, &pose());
    let template = Template::new(pose(), PatchType::NoFlip);
    let best = find_patch(&finder(), &source, &template).unwrap();
    assert_eq!((best.x, best.y, best.score), (24, 16, u32::MAX));
}

#[test]
fn template_as_large_as_source_is_found_at_origin() {
    let source = pose();
    let template = Template::new(pose(), PatchType::FlipHorizontally);
    let results = find(&finder(), &source, &template);
    assert!(results.iter().all(|m| m.x == 0 && m.y == 0));
    assert_eq!(best_match(&results), Some(MatchResult { x: 0, y: 0, score: u32::MAX }));
}

#[test]
fn padded_keeps_pixels_and_adds_black_margin() {
    let image = PixelBuffer::from_raw(2, 1, vec![1, 2, 3, 4, 5, 6]).unwrap();
    let p = image.padded();
    assert_eq!((p.width, p.height), (3, 2));
    assert_eq!(p.pixels, vec![1, 2, 3, 4, 5, 6, 0, 0, 0, 0, 0, 0, 0, 0, 0, 0, 0, 0]);
}

#[test]
fn finder_needs_scalar_backend_with_nonzero_strides() {
    assert!(Finder::new(Backend::Scalar { threshold: 0.5, step_x: 1, step_y: 1 }).is_some());
    assert!(Finder::new(Backend::Scalar { threshold: 0.5, step_x: 0, step_y: 1 }).is_none());
    assert!(Finder::new(Backend::Scalar { threshold: 0.5, step_x: 2, step_y: 0 }).is_none());
    assert!(Finder::new(Backend::RuntimeDetectedSimd { threshold: 0.5, step_x: 1, step_y: 1 })
        .is_none());
}

#[test]
fn reported_matches_pass_the_threshold() {
    let mut source = solid(30, 20, [90, 90, 90]);
    paint(&mut source, 3, 4, &pose());
    let f = finder();
    let results = find(&f, &source, &Template::new(pose(), PatchType::FlipHorizontally));
    assert!(!results.is_empty());
    let min_score = u32::MAX - 0.5f32.to_bits();
    for m in &results {
        assert!(m.score > min_score);
        assert!(m.x + 6 <= 30 && m.y + 4 <= 20);
    }
}

#[test]
fn coarse_stride_misses_off_grid_match() {
    let mut source = solid(30, 20, [90, 90, 90]);
    paint(&mut source, 3, 5, &pose());
    let coarse = Finder::new(Backend::Scalar { threshold: 0.5, step_x: 2, step_y: 2 }).unwrap();
    let template = Template::new(pose(), PatchType::NoFlip);
    let best = find_patch(&coarse, &source, &template);
    assert!(best.map_or(true, |m| m.score < u32::MAX));
    let fine = find_patch(&finder(), &source, &template).unwrap();
    assert_eq!((fine.x, fine.y, fine.score), (3, 5, u32::MAX));
}

#[test]
fn mirror_search_never_lowers_best_score() {
    let mut source = solid(30, 20, [90, 90, 90]);
    paint(&mut source, 7, 2, &pose());
    paint(&mut source, 18, 12, &pose().mirrored());
    let f = finder();
    let plain = find_patch(&f, &source, &Template::new(pose(), PatchType::NoFlip)).unwrap();
    let both = find_patch(&f, &source, &Template::new(pose(), PatchType::FlipHorizontally)).unwrap();
    assert!(both.score >= plain.score);
    let swapped =
        find_patch(&f, &source, &Template::new(pose().mirrored(), PatchType::FlipHorizontally))
            .unwrap();
    assert_eq!(swapped.score, u32::MAX);
}
