use pickpicpack::loader::Pic;
use pickpicpack::packer::{Packer, PackingResult};
use pickpicpack::utils::{AspectRatio, ImageScaling, Rgba8};

fn pic(name: &str, w: u32, h: u32) -> Pic {
    let color = Rgba8 { r: 100, g: 25, b: 0, a: 128 };
    Pic::new(name.to_string(), w, h, color).expect("valid dimensions")
}

fn rects_disjoint(a: (usize, usize, usize, usize), b: (usize, usize, usize, usize)) -> bool {
    a.0 + a.2 <= b.0 || b.0 + b.2 <= a.0 || a.1 + a.3 <= b.1 || b.1 + b.3 <= a.1
}

fn solution_of(p: &Packer) -> &PackingResult {
    p.packing_result.as_ref().expect("a solved layout")
}

fn same_solution(a: &PackingResult, b: &PackingResult) -> bool {
    a.total_w == b.total_w && a.total_h == b.total_h && a.max_w == b.max_w && a.max_h == b.max_h
        && a.positions.len() == b.positions.len()
        && a.positions.iter().zip(b.positions.iter()).all(|(x, y)| {
            x.rect == y.rect && x.pic.file == y.pic.file && x.pic.width == y.pic.width
                && x.pic.height == y.pic.height && x.pic.color == y.pic.color
        })
}

#[test]
fn empty_engine_has_no_solution() {
    let mut p = Packer::default();
    let n = p.pack();
    assert_eq!(n, 0);
    assert!(p.packing_result.is_none());
}

#[test]
fn single_item_packs_exactly() {
    let mut p = Packer::new(64, AspectRatio::Square, ImageScaling::OneK, false);
    let n = p.update(vec![pic("a.png", 100, 100)]);
    assert_eq!(n, 1);
    let s = solution_of(&p);
    assert_eq!(s.positions.len(), 1);
    let r = &s.positions[0].rect;
    assert_eq!((r.w, r.h), (100, 100));
    assert!(r.x + r.w <= s.total_w && r.y + r.h <= s.total_h);
}

#[test]
fn end_to_end_scenario() {
    // Three images on a square canvas; then an undo leaves the first two.
    let mut p = Packer::new(64, AspectRatio::Square, ImageScaling::OneK, false);
    let n = p.update(vec![pic("a.png", 100, 100), pic("b.png", 200, 100)]);
    assert_eq!(n, 2);
    let n = p.update(vec![pic("c.png", 100, 200)]);
    assert_eq!(n, 3);

    let s = solution_of(&p);
    assert_eq!(s.positions.len(), 3);
    // Placements stay in ingestion order.
    assert_eq!(s.positions[0].pic.file, "a.png");
    assert_eq!(s.positions[1].pic.file, "b.png");
    assert_eq!(s.positions[2].pic.file, "c.png");
    // Every placement keeps its item's footprint, inside the canvas.
    for (p_, want) in s.positions.iter().zip([(100, 100), (200, 100), (100, 200)]) {
        assert_eq!((p_.rect.w, p_.rect.h), want);
        assert!(p_.rect.x + p_.rect.w <= s.total_w);
        assert!(p_.rect.y + p_.rect.h <= s.total_h);
    }
    // Pairwise non-overlapping.
    for i in 0..3 {
        for j in 0..3 {
            if i != j {
                let a = &s.positions[i].rect;
                let b = &s.positions[j].rect;
                assert!(rects_disjoint((a.x, a.y, a.w, a.h), (b.x, b.y, b.w, b.h)));
            }
        }
    }
    // A square-ish canvas: height is the floor of width times the divisor.
    assert_eq!(s.total_h, s.total_w);

    let n = p.undo();
    assert_eq!(n, 2);
    let s = solution_of(&p);
    assert_eq!(s.positions.len(), 2);
    assert_eq!(s.positions[0].pic.file, "a.png");
    assert_eq!(s.positions[1].pic.file, "b.png");
}

#[test]
fn undo_restores_previous_state() {
    let mut p = Packer::new(64, AspectRatio::Square, ImageScaling::OneK, false);
    p.update(vec![pic("a.png", 120, 80), pic("b.png", 60, 90)]);
    let before = solution_of(&p).clone();
    let files_before: Vec<String> =
        p.items.iter().flatten().map(|x| x.file.clone()).collect();

    p.update(vec![pic("c.png", 300, 40)]);
    p.undo();

    let files_after: Vec<String> =
        p.items.iter().flatten().map(|x| x.file.clone()).collect();
    assert_eq!(files_before, files_after);
    assert!(same_solution(&before, solution_of(&p)));
}

#[test]
fn undo_on_empty_engine_is_a_no_op() {
    let mut p = Packer::default();
    assert_eq!(p.undo(), 0);
    assert!(p.packing_result.is_none());
}

#[test]
fn pack_twice_is_idempotent() {
    let mut p = Packer::new(64, AspectRatio::FourThree, ImageScaling::OneK, false);
    p.update(vec![pic("a.png", 100, 100), pic("b.png", 150, 60), pic("c.png", 80, 220)]);
    let first = solution_of(&p).clone();
    p.pack();
    let second = solution_of(&p);
    assert!(same_solution(&first, second));
}

#[test]
fn canvas_tracks_aspect_divisor() {
    let mut p = Packer::new(64, AspectRatio::SixteenNine, ImageScaling::OneK, false);
    p.update(vec![pic("a.png", 300, 100), pic("b.png", 200, 200)]);
    let s = solution_of(&p);
    // height == floor(width * 9 / 16), the search's integer granularity.
    assert_eq!(s.total_h, s.total_w * 9 / 16);
}

#[test]
fn margin_grows_footprints() {
    let mut p = Packer::new(64, AspectRatio::Square, ImageScaling::OneK, false);
    p.margin = 10;
    p.update(vec![pic("a.png", 100, 100), pic("b.png", 50, 70)]);
    let s = solution_of(&p);
    assert_eq!((s.positions[0].rect.w, s.positions[0].rect.h), (110, 110));
    assert_eq!((s.positions[1].rect.w, s.positions[1].rect.h), (60, 80));
}

#[test]
fn equalize_rescales_to_mean_larger_side() {
    let mut p = Packer::new(64, AspectRatio::Square, ImageScaling::OneK, true);
    p.update(vec![pic("a.png", 100, 100), pic("b.png", 200, 100)]);
    // Mean larger side is (100 + 200) / 2 = 150.
    let s = solution_of(&p);
    assert_eq!((s.positions[0].pic.width, s.positions[0].pic.height), (150, 150));
    assert_eq!((s.positions[1].pic.width, s.positions[1].pic.height), (150, 75));
}

#[test]
fn clear_drops_everything() {
    let mut p = Packer::new(64, AspectRatio::Square, ImageScaling::OneK, false);
    p.update(vec![pic("a.png", 100, 100)]);
    p.clear();
    assert!(p.items.is_empty());
    assert!(p.packing_result.is_none());
    assert_eq!(p.aspect, AspectRatio::Square);
}

#[test]
fn actual_extent_not_beyond_canvas() {
    let mut p = Packer::new(64, AspectRatio::Square, ImageScaling::OneK, false);
    p.update(vec![pic("a.png", 101, 37), pic("b.png", 64, 128), pic("c.png", 33, 33)]);
    let s = solution_of(&p);
    assert!(s.max_w <= s.total_w);
    assert!(s.max_h <= s.total_h);
    let mut mw = 0;
    let mut mh = 0;
    for q in &s.positions {
        mw = mw.max(q.rect.x + q.rect.w);
        mh = mh.max(q.rect.y + q.rect.h);
    }
    assert_eq!(s.max_w, mw);
    assert_eq!(s.max_h, mh);
}

#[test]
fn rejects_degenerate_probe() {
    assert!(Pic::new("z.png".to_string(), 0, 10, Rgba8 { r: 1, g: 2, b: 3, a: 4 }).is_none());
    assert!(Pic::new("z.png".to_string(), 10, 0, Rgba8 { r: 1, g: 2, b: 3, a: 4 }).is_none());
    assert!(Pic::new("z.png".to_string(), 70000, 10, Rgba8 { r: 1, g: 2, b: 3, a: 4 }).is_none());
    assert!(Pic::new("z.png".to_string(), 10, 10, Rgba8 { r: 1, g: 2, b: 3, a: 4 }).is_some());
}

#[test]
fn accepts_a_wide_panorama() {
    // Anything whose footprint fits the 65535-pixel canvas bound ingests.
    let color = Rgba8 { r: 90, g: 22, b: 0, a: 128 };
    let wide = Pic::new("p.png".to_string(), 20000, 2000, color).expect("panorama accepted");
    let mut p = Packer::new(64, AspectRatio::Square, ImageScaling::OneK, false);
    let n = p.update(vec![wide]);
    assert_eq!(n, 1);
    let s = solution_of(&p);
    assert_eq!((s.positions[0].rect.w, s.positions[0].rect.h), (20000, 2000));
}
