use find_subimage::Backend;
use jumpheight::area::Area;
use jumpheight::catalog::{Catalog, Screen};
use jumpheight::matcher::{Finder, PatchType, Template};
use jumpheight::pipeline::{analyze_frame, is_sampled, sample_of, ProgressSample};
use jumpheight::pixels::PixelBuffer;
use jumpheight::progress::{progress, Percent};

fn finder() -> Finder {
    Finder::new(Backend::Scalar { threshold: 0.5, step_x: 1, step_y: 1 }).unwrap()
}

fn solid(width: u32, height: u32, rgb: [u8; 3]) -> PixelBuffer {
    PixelBuffer::from_raw(width, height, rgb.repeat((width * height) as usize)).unwrap()
}

fn paint(image: &mut PixelBuffer, x0: u32, y0: u32, block: &PixelBuffer) {
    for y in 0..block.height {
        for x in 0..block.width {
            let src = ((y * block.width + x) * 3) as usize;
            let dst = (((y0 + y) * image.width + x0 + x) * 3) as usize;
            image.pixels[dst..dst + 3].copy_from_slice(&block.pixels[src..src + 3]);
        }
    }
}

fn frame_with_block(x: u32, y: u32) -> PixelBuffer {
    let mut frame = solid(40, 30, [0, 0, 0]);
    paint(&mut frame, x, y, &solid(5, 5, [255, 0, 255]));
    frame
}

#[test]
fn sampling_keeps_first_and_every_nth_frame() {
    assert!(is_sampled(0, 500));
    assert!(!is_sampled(1, 500));
    assert!(!is_sampled(499, 500));
    assert!(is_sampled(500, 500));
    assert!(is_sampled(1000, 500));
    assert!(is_sampled(7, 1));
}

#[test]
fn sample_of_maps_row_to_progress() {
    assert_eq!(sample_of(3, Area::Bargain(2), None), None);
    assert_eq!(
        sample_of(3, Area::Bargain(2), Some((8, 40))),
        Some(ProgressSample {
            frame_index: 3,
            progress: Percent { numerator: (16 * 611 + 40) * 100, denominator: 27495 },
        })
    );
}

#[test]
fn video_mode_samples_every_five_hundredth_frame() {
    let catalog = Catalog::new(vec![Screen::new(
        "stormwall1.png".to_string(),
        Area::Stormwall(1),
        &frame_with_block(3, 3),
    )])
    .unwrap();
    let battery = vec![Template::new(solid(5, 5, [255, 0, 255]), PatchType::NoFlip)];
    let f = finder();
    let mut samples = Vec::new();
    for frame_index in 0..1200usize {
        if !is_sampled(frame_index, 500) {
            continue;
        }
        let frame = frame_with_block(10, 20);
        if let Some(sample) = analyze_frame(&f, &catalog, &battery, frame_index, &frame) {
            samples.push(sample);
        }
    }
    let indices: Vec<usize> = samples.iter().map(|s| s.frame_index).collect();
    assert_eq!(indices, vec![0, 500, 1000]);
    for s in &samples {
        assert_eq!(s.progress, progress(Area::Stormwall(1), 20));
    }
}

#[test]
fn analyze_frame_skips_frame_without_character() {
    let catalog =
        Catalog::new(vec![Screen::new("drain1.png".to_string(), Area::Drain(1), &solid(8, 8, [9, 9, 9]))])
            .unwrap();
    let battery = vec![Template::new(solid(5, 5, [255, 0, 255]), PatchType::NoFlip)];
    let frame = solid(40, 30, [0, 200, 0]);
    assert_eq!(analyze_frame(&finder(), &catalog, &battery, 0, &frame), None);
}

#[test]
fn analyze_frame_skips_empty_frame() {
    let catalog =
        Catalog::new(vec![Screen::new("drain1.png".to_string(), Area::Drain(1), &solid(8, 8, [9, 9, 9]))])
            .unwrap();
    let battery = vec![Template::new(solid(5, 5, [255, 0, 255]), PatchType::NoFlip)];
    let frame = PixelBuffer::from_raw(0, 0, vec![]).unwrap();
    assert_eq!(analyze_frame(&finder(), &catalog, &battery, 0, &frame), None);
}

#[test]
fn analyze_frame_uses_nearest_scene_and_character_row() {
    let dark = solid(40, 30, [10, 10, 10]);
    let mut rising = solid(40, 30, [0, 0, 0]);
    for y in 0..30u32 {
        for x in 0..40u32 {
            let v = (x * 6) as u8;
            let i = ((y * 40 + x) * 3) as usize;
            rising.pixels[i..i + 3].copy_from_slice(&[v, v, v]);
        }
    }
    let catalog = Catalog::new(vec![
        Screen::new("a.png".to_string(), Area::Redcrown(1), &dark),
        Screen::new("b.png".to_string(), Area::Redcrown(2), &rising),
    ])
    .unwrap();
    let mut frame = rising.clone();
    paint(&mut frame, 30, 2, &solid(3, 3, [255, 0, 255]));
    let battery = vec![Template::new(solid(3, 3, [255, 0, 255]), PatchType::NoFlip)];
    let sample = analyze_frame(&finder(), &catalog, &battery, 42, &frame).unwrap();
    assert_eq!(sample.frame_index, 42);
    assert_eq!(sample.progress, progress(Area::Redcrown(2), 2));
}
