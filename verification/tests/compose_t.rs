use pickpicpack::compose::{PaintBox, Raster, SourceImage, rgba_pixels};
use pickpicpack::loader::Pic;
use pickpicpack::packer::{Counter, Packer};
use pickpicpack::utils::{AspectRatio, ImageScaling, Rgba8};

const BLANK: Rgba8 = Rgba8 { r: 0, g: 0, b: 0, a: 0 };

fn at(r: &Raster, x: usize, y: usize) -> Rgba8 {
    r.pixels[y * r.width + x]
}

#[test]
fn new_raster_is_transparent() {
    let r = Raster::new(3, 2);
    assert_eq!(r.width, 3);
    assert_eq!(r.height, 2);
    assert_eq!(r.pixels.len(), 6);
    assert!(r.pixels.iter().all(|p| *p == BLANK));
}

#[test]
fn fill_box_paints_exactly_the_box() {
    let mut r = Raster::new(4, 4);
    let c = Rgba8 { r: 9, g: 8, b: 7, a: 6 };
    r.fill_box(PaintBox { x: 1, y: 1, w: 2, h: 2, color: c });
    for y in 0..4 {
        for x in 0..4 {
            let inside = (1..3).contains(&x) && (1..3).contains(&y);
            assert_eq!(at(&r, x, y), if inside { c } else { BLANK });
        }
    }
}

#[test]
fn fill_box_clips_at_the_edge() {
    let mut r = Raster::new(3, 3);
    let c = Rgba8 { r: 1, g: 1, b: 1, a: 1 };
    r.fill_box(PaintBox { x: 2, y: 2, w: 10, h: 10, color: c });
    assert_eq!(at(&r, 2, 2), c);
    assert_eq!(at(&r, 1, 1), BLANK);
    assert_eq!(at(&r, 2, 1), BLANK);
}

#[test]
fn blit_copies_the_tile() {
    let mut r = Raster::new(4, 3);
    let a = Rgba8 { r: 10, g: 0, b: 0, a: 255 };
    let b = Rgba8 { r: 20, g: 0, b: 0, a: 255 };
    let tile = vec![a, b, b, a];
    r.blit(&tile, 1, 1, 2, 2);
    assert_eq!(at(&r, 1, 1), a);
    assert_eq!(at(&r, 2, 1), b);
    assert_eq!(at(&r, 1, 2), b);
    assert_eq!(at(&r, 2, 2), a);
    assert_eq!(at(&r, 0, 0), BLANK);
    assert_eq!(at(&r, 3, 2), BLANK);
}

#[test]
fn rgba_pixels_groups_bytes() {
    let bytes = vec![1, 2, 3, 4, 5, 6, 7, 8];
    let px = rgba_pixels(&bytes);
    assert_eq!(px.len(), 2);
    assert_eq!(px[0], Rgba8 { r: 1, g: 2, b: 3, a: 4 });
    assert_eq!(px[1], Rgba8 { r: 5, g: 6, b: 7, a: 8 });
}

#[test]
fn placeholder_preview_uses_item_colors() {
    // One 100x100 item on a square canvas: the canvas is exactly the item, so
    // a 50-pixel preview is the item's color edge to edge.
    let color = Rgba8 { r: 123, g: 30, b: 0, a: 128 };
    let item = Pic::new("a.png".to_string(), 100, 100, color).unwrap();
    let mut p = Packer::new(50, AspectRatio::Square, ImageScaling::OneK, false);
    p.update(vec![item]);
    assert_eq!(p.preview.width, 50);
    assert_eq!(p.preview.height, 50);
    assert_eq!(at(&p.preview, 0, 0), color);
    assert_eq!(at(&p.preview, 25, 25), color);
    assert_eq!(at(&p.preview, 49, 49), color);
}

#[test]
fn preview_without_items_is_blank() {
    let mut p = Packer::new(40, AspectRatio::Square, ImageScaling::OneK, false);
    p.update(Vec::new());
    assert_eq!(p.preview.width, 40);
    assert_eq!(p.preview.height, 40);
    assert!(p.preview.pixels.iter().all(|q| *q == BLANK));
}

#[test]
fn photographic_pass_keeps_placeholder_geometry() {
    // The decoded tile lands exactly on the placeholder's box: a zeroed
    // source image overwrites the flat color inside the box and nothing else.
    let color = Rgba8 { r: 99, g: 24, b: 0, a: 128 };
    let item = Pic::new("a.png".to_string(), 100, 100, color).unwrap();
    let mut p = Packer::new(50, AspectRatio::Square, ImageScaling::OneK, false);
    p.update(vec![item]);
    assert_eq!(at(&p.preview, 10, 10), color);

    let img = SourceImage::new(100, 100, vec![0u8; 100 * 100 * 4]).unwrap();
    p.combine_thumbnails(1, Some(&img));
    // Inside the box: the resampled (all-zero) image replaced the color.
    assert_eq!(at(&p.preview, 10, 10), BLANK);
    assert_eq!(at(&p.preview, 49, 49), BLANK);
}

#[test]
fn photographic_pass_without_image_changes_nothing() {
    let color = Rgba8 { r: 77, g: 19, b: 0, a: 128 };
    let item = Pic::new("a.png".to_string(), 100, 100, color).unwrap();
    let mut p = Packer::new(50, AspectRatio::Square, ImageScaling::OneK, false);
    p.update(vec![item]);
    let before = p.preview.pixels.clone();
    p.combine_thumbnails(1, None);
    assert_eq!(before, p.preview.pixels);
}

#[test]
fn actual_size_records_extent() {
    let color = Rgba8 { r: 60, g: 15, b: 0, a: 128 };
    let item = Pic::new("a.png".to_string(), 80, 60, color).unwrap();
    let mut p = Packer::new(50, AspectRatio::Square, ImageScaling::OneK, false);
    p.update(vec![item]);
    assert_eq!((p.actual_size.w, p.actual_size.h), (80, 60));
}

#[test]
fn source_image_checks_its_buffer() {
    assert!(SourceImage::new(2, 2, vec![0u8; 16]).is_some());
    assert!(SourceImage::new(2, 2, vec![0u8; 15]).is_none());
    assert!(SourceImage::new(2, 2, vec![0u8; 17]).is_none());
}

#[test]
fn counter_drives_the_incremental_preview() {
    let mut c = Counter::default();
    c.reset();
    assert!(c.finished());
    // Waking a parked cursor yields the placeholder pass (step zero twice:
    // once to wake, once as the real cursor step), then nothing.
    assert_eq!(c.update(), Some(0));
    assert_eq!(c.update(), Some(0));
    assert_eq!(c.update(), None);

    c.renew(2);
    assert!(!c.finished());
    assert_eq!(c.update(), Some(0));
    assert_eq!(c.update(), Some(1));
    assert_eq!(c.update(), Some(2));
    assert_eq!(c.update(), None);
    assert!(c.finished());
}

#[test]
fn export_raster_matches_scale() {
    let color = Rgba8 { r: 50, g: 12, b: 0, a: 128 };
    let item = Pic::new("a.png".to_string(), 100, 100, color).unwrap();
    let mut p = Packer::new(50, AspectRatio::Square, ImageScaling::HalfK, false);
    p.update(vec![item]);
    let r = p.begin_export().expect("an export raster");
    assert_eq!((r.width, r.height), (512, 512));
}

#[test]
fn export_actual_uses_layout_extent() {
    let color = Rgba8 { r: 50, g: 12, b: 0, a: 128 };
    let item = Pic::new("a.png".to_string(), 120, 90, color).unwrap();
    let mut p = Packer::new(50, AspectRatio::Square, ImageScaling::Actual, false);
    p.update(vec![item]);
    let r = p.begin_export().expect("an export raster");
    assert_eq!((r.width, r.height), (120, 90));
}

#[test]
fn export_tile_fills_its_box() {
    let color = Rgba8 { r: 50, g: 12, b: 0, a: 128 };
    let item = Pic::new("a.png".to_string(), 100, 100, color).unwrap();
    let mut p = Packer::new(50, AspectRatio::Square, ImageScaling::Actual, false);
    p.update(vec![item]);
    let mut r = p.begin_export().unwrap();
    // A zeroed 100x100 source at Actual scale covers the whole raster.
    let img = SourceImage::new(100, 100, vec![0u8; 100 * 100 * 4]).unwrap();
    assert!(p.export_tile(&mut r, 0, &img));
    assert_eq!((r.width, r.height), (100, 100));
    assert!(r.pixels.iter().all(|q| *q == BLANK));
}

#[test]
fn begin_export_requires_a_solution() {
    let p = Packer::default();
    assert!(p.begin_export().is_none());
}
