use jumpheight::area::Area;
use jumpheight::catalog::{locate_screen, Catalog, CatalogError, Screen};
use jumpheight::hashing::PerceptualHash;
use jumpheight::pixels::PixelBuffer;

fn scene(area: Area, bytes: Vec<u8>) -> Screen {
    Screen { area, source: format!("{}{}.png", area.name(), area.num()), hash: PerceptualHash { bytes } }
}

fn ramp(width: u32, height: u32, rising: bool) -> PixelBuffer {
    let mut pixels = Vec::new();
    for _y in 0..height {
        for x in 0..width {
            let step = if rising { x } else { width - 1 - x };
            let v = (step * 255 / width) as u8;
            pixels.extend_from_slice(&[v, v, v]);
        }
    }
    PixelBuffer::from_raw(width, height, pixels).unwrap()
}

#[test]
fn empty_catalog_is_rejected() {
    assert_eq!(Catalog::new(vec![]).unwrap_err(), CatalogError::Empty);
}

#[test]
fn classify_picks_scene_closer_to_query() {
    let catalog = Catalog::new(vec![
        scene(Area::Chapel(1), vec![0x00, 0x00]),
        scene(Area::Chapel(2), vec![0xff, 0x0f]),
    ])
    .unwrap();
    let query = PerceptualHash { bytes: vec![0xfe, 0x0f] };
    let found = catalog.classify(&query);
    assert_eq!(found.area, Area::Chapel(2));
    assert_eq!(catalog.nearest(&query), 1);
}

#[test]
fn classify_twice_gives_same_scene() {
    let catalog = Catalog::new(vec![
        scene(Area::Drain(1), vec![0x0f]),
        scene(Area::Drain(2), vec![0xf0]),
        scene(Area::Drain(3), vec![0x3c]),
    ])
    .unwrap();
    let query = PerceptualHash { bytes: vec![0x1e] };
    let first = catalog.classify(&query).area;
    let second = catalog.classify(&query).area;
    assert_eq!(first, second);
}

#[test]
fn classify_single_scene_catalog_always_returns_it() {
    let catalog = Catalog::new(vec![scene(Area::Blue(3), vec![0xaa, 0x55])]).unwrap();
    for bytes in [vec![0x00, 0x00], vec![0xaa, 0x55], vec![0xff], vec![]] {
        let query = PerceptualHash { bytes };
        assert_eq!(catalog.classify(&query).area, Area::Blue(3));
    }
}

#[test]
fn classify_tie_goes_to_first_scene() {
    let catalog = Catalog::new(vec![
        scene(Area::False(1), vec![0x01]),
        scene(Area::False(2), vec![0x02]),
        scene(Area::False(3), vec![0x00]),
    ])
    .unwrap();
    let query = PerceptualHash { bytes: vec![0x03] };
    assert_eq!(catalog.classify(&query).area, Area::False(1));
}

#[test]
fn locate_screen_finds_reference_image_itself() {
    let falling = ramp(48, 32, false);
    let rising = ramp(48, 32, true);
    let catalog = Catalog::new(vec![
        Screen::new("falling.png".to_string(), Area::Tower(1), &falling),
        Screen::new("rising.png".to_string(), Area::Tower(2), &rising),
    ])
    .unwrap();
    assert!(catalog.scenes[0].hash.distance(&catalog.scenes[1].hash) > 0);
    assert_eq!(locate_screen(&catalog, &rising).area, Area::Tower(2));
    assert_eq!(locate_screen(&catalog, &rising).source, "rising.png");
    assert_eq!(locate_screen(&catalog, &falling).area, Area::Tower(1));
    assert_eq!(catalog.scenes[1].hash.bytes, PerceptualHash::of_image(&rising).bytes);
}
