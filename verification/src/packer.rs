//! The layout engine: owns the ordered history of ingestion batches and
//! searches for a canvas that matches the target aspect ratio and fits every
//! item.

use vstd::prelude::*;
use crate::compose::{
    Raster, PaintBox, SourceImage, paint, covers, tile_pixel, rgba_pixels, rgba_seq,
    resample_quality, resample_for_preview, preview_tile, resize_of, PIXEL_LIMIT,
};
use crate::loader::{Pic, PicView, pic_wf};
use crate::pack::{
    RawPlacement, packing_valid, rect_for, search_spec, search_canvas, order_placements,
    lemma_search_spec_valid, lemma_rect_for_props, lemma_rect_for_disjoint,
};
use crate::utils::{
    AspectRatio, ImageScaling, RectSize, Rgba8, fit_to_square, fit_to_square_spec,
    by_scale_and_ratio_spec,
};

verus! {

/// A solved position: where a placement's rectangle sits in the canvas.
#[derive(Debug, Clone, Copy, PartialEq, Eq, Structural)]
pub struct PlacedRect {
    pub x: usize,
    pub y: usize,
    pub w: usize,
    pub h: usize,
}

/// One placement of the solved layout: a rectangle and the item it places
/// (with the footprint the item had when it was packed).
#[derive(Debug, Clone)]
pub struct PlacedItem {
    pub rect: PlacedRect,
    pub pic: Pic,
}

/// The mathematical value of a `PlacedItem`.
pub ghost struct PlacedItemView {
    pub rect: PlacedRect,
    pub pic: PicView,
}

impl View for PlacedItem {
    type V = PlacedItemView;

    open spec fn view(&self) -> PlacedItemView {
        PlacedItemView { rect: self.rect, pic: self.pic@ }
    }
}

/// A solved layout: the canvas the search settled on, the actual extent the
/// placements use (the canvas may keep unused margin beyond it), and one
/// placement per item, in ingestion order.
#[derive(Debug, Clone)]
pub struct PackingResult {
    pub total_w: usize,
    pub total_h: usize,
    pub max_w: usize,
    pub max_h: usize,
    pub positions: Vec<PlacedItem>,
}

/// The mathematical value of a `PackingResult`.
pub ghost struct PackingResultView {
    pub total_w: usize,
    pub total_h: usize,
    pub max_w: usize,
    pub max_h: usize,
    pub positions: Seq<PlacedItemView>,
}

impl View for PackingResult {
    type V = PackingResultView;

    open spec fn view(&self) -> PackingResultView {
        PackingResultView {
            total_w: self.total_w,
            total_h: self.total_h,
            max_w: self.max_w,
            max_h: self.max_h,
            positions: self.positions@.map_values(|p: PlacedItem| p@),
        }
    }
}

/// The values of a list of items.
pub open spec fn pics_view(s: Seq<Pic>) -> Seq<PicView> {
    s.map_values(|p: Pic| p@)
}

/// The values of a list of batches.
pub open spec fn batches_view_of(bs: Seq<Vec<Pic>>) -> Seq<Seq<PicView>> {
    bs.map_values(|b: Vec<Pic>| pics_view(b@))
}

/// All batches flattened into one item list, in ingestion order.
pub open spec fn flatten_batches(batches: Seq<Seq<PicView>>) -> Seq<PicView>
    decreases batches.len(),
{
    if batches.len() == 0 {
        Seq::empty()
    } else {
        flatten_batches(batches.drop_last()) + batches.last()
    }
}

/// An item's larger side.
pub open spec fn maxside(p: PicView) -> int {
    if p.width >= p.height {
        p.width as int
    } else {
        p.height as int
    }
}

/// Sum of the items' larger sides, saturating at 2^46.
pub open spec fn maxside_sum(items: Seq<PicView>) -> int
    decreases items.len(),
{
    if items.len() == 0 {
        0
    } else {
        let t = maxside_sum(items.drop_last()) + maxside(items.last());
        if t > 0x400000000000 {
            0x400000000000
        } else {
            t
        }
    }
}

/// The mean larger side over all items (integer division).
pub open spec fn mean_max_side(items: Seq<PicView>) -> int
    recommends
        items.len() > 0,
{
    maxside_sum(items) / items.len() as int
}

/// The item rescaled, aspect preserved, so its larger side is `side`.
pub open spec fn resized(p: PicView, side: u32) -> PicView {
    PicView {
        file: p.file,
        width: fit_to_square_spec(p.width, p.height, side).0,
        height: fit_to_square_spec(p.width, p.height, side).1,
        color: p.color,
    }
}

/// In equalize mode, every item is rescaled so its larger side equals the
/// mean larger side of all items; otherwise items keep their natural size.
pub open spec fn equalize(items: Seq<PicView>, equal: bool) -> Seq<PicView> {
    if equal && items.len() > 0 {
        items.map_values(|p: PicView| resized(p, mean_max_side(items) as u32))
    } else {
        items
    }
}

/// The footprint offered to the packer for each item: its size grown by the
/// margin on both axes.
pub open spec fn footprints_spec(items: Seq<PicView>, margin: u32) -> Seq<(usize, usize)> {
    items.map_values(|p: PicView| (((p.width + margin) as usize, (p.height + margin) as usize)))
}

/// The placement rectangle of a raw packer answer.
pub open spec fn rect_of(rp: RawPlacement) -> PlacedRect {
    PlacedRect { x: rp.x, y: rp.y, w: rp.w, h: rp.h }
}

/// The solved placements in ingestion order: slot `i` pairs item `i` with the
/// rectangle that places it.
pub open spec fn positions_model(eq: Seq<PicView>, raw: Seq<RawPlacement>) -> Seq<PlacedItemView> {
    Seq::new(eq.len(), |i: int| PlacedItemView { rect: rect_of(rect_for(raw, i)), pic: eq[i] })
}

/// The right edge of the placements' extent.
pub open spec fn max_right(ps: Seq<PlacedItemView>) -> int
    decreases ps.len(),
{
    if ps.len() == 0 {
        0
    } else {
        let m = max_right(ps.drop_last());
        let e = ps.last().rect.x + ps.last().rect.w;
        if e > m {
            e
        } else {
            m
        }
    }
}

/// The bottom edge of the placements' extent.
pub open spec fn max_bottom(ps: Seq<PlacedItemView>) -> int
    decreases ps.len(),
{
    if ps.len() == 0 {
        0
    } else {
        let m = max_bottom(ps.drop_last());
        let e = ps.last().rect.y + ps.last().rect.h;
        if e > m {
            e
        } else {
            m
        }
    }
}

/// What one (re)pack computes from the engine's state: the flattened batch
/// list (empty means no solution), equalized if asked, each item's footprint
/// grown by the margin, run through the canvas growth search; on success, the
/// placements in ingestion order with the canvas and the used extent.
pub open spec fn pack_model(
    batches: Seq<Seq<PicView>>,
    aspect: AspectRatio,
    equal: bool,
    margin: u32,
) -> Option<PackingResultView> {
    let flat = flatten_batches(batches);
    if flat.len() == 0 {
        None
    } else {
        let eq = equalize(flat, equal);
        let sizes = footprints_spec(eq, margin);
        let num = aspect.div_spec().0;
        let den = aspect.div_spec().1;
        match search_spec(sizes, num as int, den as int) {
            None => None,
            Some(t) => {
                let ps = positions_model(eq, t.2);
                Some(
                    PackingResultView {
                        total_w: t.0 as usize,
                        total_h: t.1 as usize,
                        max_w: max_right(ps) as usize,
                        max_h: max_bottom(ps) as usize,
                        positions: ps,
                    },
                )
            },
        }
    }
}

/// The value of an optional solved layout.
pub open spec fn result_view(o: Option<PackingResult>) -> Option<PackingResultView> {
    match o {
        Some(p) => Some(p@),
        None => None,
    }
}

impl Pic {
    /// A copy of the item.
    pub fn duplicate(&self) -> (r: Pic)
        ensures
            r@ == self@,
    {
        Pic { file: self.file.clone(), width: self.width, height: self.height, color: self.color }
    }
}

/// Flattens the batches into one item list, in ingestion order.
fn flatten_all(batches: &Vec<Vec<Pic>>) -> (r: Vec<Pic>)
    ensures
        pics_view(r@) == flatten_batches(batches_view_of(batches@)),
{
    let mut r: Vec<Pic> = Vec::new();
    let mut b: usize = 0;
    let n = batches.len();
    while b < n
        invariant
            0 <= b <= n,
            n == batches@.len(),
            pics_view(r@) == flatten_batches(batches_view_of(batches@.take(b as int))),
        decreases n - b,
    {
        let batch = &batches[b];
        let m = batch.len();
        let mut i: usize = 0;
        while i < m
            invariant
                0 <= i <= m,
                0 <= b < n,
                n == batches@.len(),
                m == batch@.len(),
                batch == &batches@[b as int],
                pics_view(r@) == flatten_batches(batches_view_of(batches@.take(b as int)))
                    + pics_view(batch@.take(i as int)),
            decreases m - i,
        {
            let ghost r_prev = r@;
            r.push(batch[i].duplicate());
            proof {
                assert(pics_view(r@) =~= pics_view(r_prev).push(batch@[i as int]@));
                assert(batch@.take(i + 1).drop_last() =~= batch@.take(i as int));
                assert(pics_view(batch@.take(i + 1)) =~= pics_view(batch@.take(i as int)).push(
                    batch@[i as int]@,
                ));
                assert(pics_view(r@) =~= flatten_batches(batches_view_of(batches@.take(b as int)))
                    + pics_view(batch@.take(i + 1)));
            }
            i += 1;
        }
        proof {
            assert(batch@.take(m as int) =~= batch@);
            assert(batches_view_of(batches@.take(b + 1)).drop_last() =~= batches_view_of(
                batches@.take(b as int),
            ));
            assert(batches_view_of(batches@.take(b + 1)).last() =~= pics_view(batch@));
            assert(pics_view(r@) =~= flatten_batches(batches_view_of(batches@.take(b + 1))));
        }
        b += 1;
    }
    proof {
        assert(batches@.take(n as int) =~= batches@);
    }
    r
}

/// The capped sum of larger sides stays within the item count times the
/// largest side.
proof fn lemma_maxside_sum_bound(items: Seq<PicView>)
    requires
        forall|i: int| 0 <= i < items.len() ==> maxside(#[trigger] items[i]) <= 64511,
    ensures
        0 <= maxside_sum(items) <= items.len() * 64511,
    decreases items.len(),
{
    if items.len() > 0 {
        lemma_maxside_sum_bound(items.drop_last());
        assert(maxside(items.last()) <= 64511);
        assert((items.len() - 1) * 64511 + 64511 == items.len() * 64511) by (nonlinear_arith);
    }
}

/// Sums the items' larger sides.
fn maxside_total(items: &Vec<Pic>) -> (r: u64)
    requires
        forall|i: int| 0 <= i < items@.len() ==> pic_wf(#[trigger] items@[i]@),
    ensures
        r == maxside_sum(pics_view(items@)),
        r <= 0x400000000000,
{
    let n = items.len();
    let mut acc: u64 = 0;
    let mut i: usize = 0;
    while i < n
        invariant
            0 <= i <= n,
            n == items@.len(),
            forall|k: int| 0 <= k < items@.len() ==> pic_wf(#[trigger] items@[k]@),
            acc == maxside_sum(pics_view(items@.take(i as int))),
            acc <= 0x400000000000,
        decreases n - i,
    {
        proof {
            assert(pics_view(items@.take(i + 1)).drop_last() =~= pics_view(items@.take(i as int)));
            assert(pics_view(items@.take(i + 1)).last() == items@[i as int]@);
        }
        let p = &items[i];
        let side = if p.width >= p.height {
            p.width as u64
        } else {
            p.height as u64
        };
        let t = acc + side;
        if t > 0x400000000000 {
            acc = 0x400000000000;
        } else {
            acc = t;
        }
        i += 1;
    }
    proof {
        assert(items@.take(n as int) =~= items@);
    }
    acc
}

/// Applies equalize mode: every item rescaled to the mean larger side.
fn equalized_items(flat: &Vec<Pic>, equal: bool) -> (r: Vec<Pic>)
    requires
        forall|i: int| 0 <= i < flat@.len() ==> pic_wf(#[trigger] flat@[i]@),
    ensures
        pics_view(r@) == equalize(pics_view(flat@), equal),
        forall|i: int|
            0 <= i < r@.len() ==> (#[trigger] r@[i])@.width <= 64511 && r@[i]@.height <= 64511,
{
    let n = flat.len();
    let mut r: Vec<Pic> = Vec::new();
    if !equal || n == 0 {
        let mut i: usize = 0;
        while i < n
            invariant
                0 <= i <= n,
                n == flat@.len(),
                forall|k: int| 0 <= k < flat@.len() ==> pic_wf(#[trigger] flat@[k]@),
                r@.len() == i,
                forall|k: int| 0 <= k < i ==> (#[trigger] r@[k])@ == flat@[k]@,
            decreases n - i,
        {
            r.push(flat[i].duplicate());
            i += 1;
        }
        proof {
            assert(pics_view(r@) =~= pics_view(flat@));
        }
        r
    } else {
        let total = maxside_total(flat);
        proof {
            assert(forall|i: int|
                0 <= i < pics_view(flat@).len() ==> maxside(#[trigger] pics_view(flat@)[i])
                    <= 64511);
            lemma_maxside_sum_bound(pics_view(flat@));
            assert(maxside_sum(pics_view(flat@)) / (n as int) <= 64511) by (nonlinear_arith)
                requires
                    n >= 1,
                    0 <= maxside_sum(pics_view(flat@)) <= (n as int) * 64511,
            ;
        }
        let mean = (total / (n as u64)) as u32;
        let ghost items = pics_view(flat@);
        let mut i: usize = 0;
        while i < n
            invariant
                0 <= i <= n,
                n == flat@.len(),
                forall|k: int| 0 <= k < flat@.len() ==> pic_wf(#[trigger] flat@[k]@),
                items == pics_view(flat@),
                mean as int == mean_max_side(items),
                mean <= 64511,
                r@.len() == i,
                forall|k: int| 0 <= k < i ==> (#[trigger] r@[k])@ == resized(flat@[k]@, mean),
                forall|k: int|
                    0 <= k < i ==> (#[trigger] r@[k])@.width <= 64511 && r@[k]@.height <= 64511,
            decreases n - i,
        {
            let p = &flat[i];
            proof {
                assert(pic_wf(flat@[i as int]@));
            }
            let dims = fit_to_square(p.width, p.height, mean);
            proof {
                lemma_fit_bounds(p.width, p.height, mean);
            }
            r.push(Pic { file: p.file.clone(), width: dims.0, height: dims.1, color: p.color });
            i += 1;
        }
        proof {
            assert(pics_view(r@) =~= equalize(pics_view(flat@), equal));
        }
        r
    }
}

/// An aspect-preserving rescale never exceeds the requested side.
proof fn lemma_fit_bounds(width: u32, height: u32, side: u32)
    requires
        width >= 1,
        height >= 1,
    ensures
        fit_to_square_spec(width, height, side).0 <= side,
        fit_to_square_spec(width, height, side).1 <= side,
{
    if height <= width {
        assert((side as int * height as int) / width as int <= side as int) by (nonlinear_arith)
            requires
                1 <= height <= width,
                side >= 0,
        ;
    } else {
        assert((side as int * width as int) / height as int <= side as int) by (nonlinear_arith)
            requires
                1 <= width <= height,
                side >= 0,
        ;
    }
}

/// The footprint offered to the packer for each item.
fn footprints(items: &Vec<Pic>, margin: u32) -> (r: Vec<(usize, usize)>)
    requires
        margin <= 1024,
        forall|i: int|
            0 <= i < items@.len() ==> (#[trigger] items@[i])@.width <= 64511 && items@[i]@.height
                <= 64511,
    ensures
        r@ == footprints_spec(pics_view(items@), margin),
        forall|i: int| 0 <= i < r@.len() ==> (#[trigger] r@[i]).0 <= 65535 && r@[i].1 <= 65535,
{
    let n = items.len();
    let mut r: Vec<(usize, usize)> = Vec::new();
    let mut i: usize = 0;
    while i < n
        invariant
            0 <= i <= n,
            n == items@.len(),
            margin <= 1024,
            forall|k: int|
                0 <= k < items@.len() ==> (#[trigger] items@[k])@.width <= 64511
                    && items@[k]@.height <= 64511,
            r@.len() == i,
            forall|k: int|
                0 <= k < i ==> (#[trigger] r@[k]) == (((items@[k]@.width + margin) as usize, (
                items@[k]@.height + margin) as usize)),
            forall|k: int| 0 <= k < i ==> (#[trigger] r@[k]).0 <= 65535 && r@[k].1 <= 65535,
        decreases n - i,
    {
        let p = &items[i];
        r.push((((p.width + margin) as usize, (p.height + margin) as usize)));
        i += 1;
    }
    proof {
        assert(r@ =~= footprints_spec(pics_view(items@), margin));
    }
    r
}

/// Every item of the flattened batch list is well-formed when every stored
/// item is.
proof fn lemma_flatten_batches_wf(batches: Seq<Seq<PicView>>)
    requires
        forall|b: int, i: int|
            0 <= b < batches.len() && 0 <= i < batches[b].len() ==> pic_wf(
                #[trigger] batches[b][i],
            ),
    ensures
        forall|i: int|
            0 <= i < flatten_batches(batches).len() ==> pic_wf(#[trigger] flatten_batches(
                batches,
            )[i]),
    decreases batches.len(),
{
    if batches.len() > 0 {
        lemma_flatten_batches_wf(batches.drop_last());
        let prev = flatten_batches(batches.drop_last());
        let lastb = batches.last();
        assert forall|i: int|
            0 <= i < flatten_batches(batches).len() implies pic_wf(#[trigger] flatten_batches(
            batches,
        )[i]) by {
            if i < prev.len() {
                assert(flatten_batches(batches)[i] == prev[i]);
            } else {
                assert(flatten_batches(batches)[i] == lastb[i - prev.len()]);
                assert(pic_wf(batches[batches.len() - 1][i - prev.len()]));
            }
        }
    }
}

/// The number of items in the flattened batch list.
pub open spec fn flat_len(batches: Seq<Seq<PicView>>) -> int {
    flatten_batches(batches).len() as int
}

/// The extent folds bound every placement's edges.
proof fn lemma_max_right_ge(ps: Seq<PlacedItemView>, i: int)
    requires
        0 <= i < ps.len(),
    ensures
        ps[i].rect.x + ps[i].rect.w <= max_right(ps),
        ps[i].rect.y + ps[i].rect.h <= max_bottom(ps),
    decreases ps.len(),
{
    if i < ps.len() - 1 {
        lemma_max_right_ge(ps.drop_last(), i);
    }
}

/// The extent folds stay within any bound all placements respect.
proof fn lemma_max_right_le(ps: Seq<PlacedItemView>, bw: int, bh: int)
    requires
        bw >= 0,
        bh >= 0,
        forall|i: int|
            0 <= i < ps.len() ==> (#[trigger] ps[i]).rect.x + ps[i].rect.w <= bw && ps[i].rect.y
                + ps[i].rect.h <= bh,
    ensures
        max_right(ps) <= bw,
        max_bottom(ps) <= bh,
    decreases ps.len(),
{
    if ps.len() > 0 {
        lemma_max_right_le(ps.drop_last(), bw, bh);
    }
}

/// A stored layout solution is internally consistent: the canvas is within
/// the side limit, the recorded extent is the fold of the placements' edges
/// and stays within the canvas, every placement lies in the canvas, and no
/// item is larger than the rectangle placing it.
pub open spec fn result_wf(pr: PackingResultView) -> bool {
    &&& pr.total_w <= 65535
    &&& pr.total_h <= 65535
    &&& pr.max_w as int == max_right(pr.positions)
    &&& pr.max_h as int == max_bottom(pr.positions)
    &&& pr.max_w <= pr.total_w
    &&& pr.max_h <= pr.total_h
    &&& forall|i: int|
        0 <= i < pr.positions.len() ==> (#[trigger] pr.positions[i]).rect.x
            + pr.positions[i].rect.w <= pr.total_w && pr.positions[i].rect.y
            + pr.positions[i].rect.h <= pr.total_h && pr.positions[i].pic.width
            <= pr.positions[i].rect.w && pr.positions[i].pic.height <= pr.positions[i].rect.h
}

/// The layout engine: batches in ingestion order, the layout settings, the
/// current preview raster, and the last solved layout.
#[derive(Debug)]
pub struct Packer {
    pub items: Vec<Vec<Pic>>,
    pub preview_width: u32,
    pub aspect: AspectRatio,
    pub equal: bool,
    pub margin: u32,
    pub scale: ImageScaling,
    pub preview: Raster,
    pub actual_size: RectSize,
    pub packing_result: Option<PackingResult>,
}

impl Packer {
    /// The batches as mathematical values.
    pub open spec fn batches_view(self) -> Seq<Seq<PicView>> {
        batches_view_of(self.items@)
    }

    /// Settings are within range and every stored item is well-formed.
    pub open spec fn wf(self) -> bool {
        &&& self.aspect.wf()
        &&& self.margin <= 1024
        &&& self.scale.wf()
        &&& self.preview_width <= 65535
        &&& self.preview.wf()
        &&& match self.packing_result {
            Some(pr) => result_wf(pr@),
            None => true,
        }
        &&& forall|b: int, i: int|
            0 <= b < self.items@.len() && 0 <= i < (#[trigger] self.items@[b])@.len() ==> pic_wf(
                (#[trigger] self.items@[b]@[i])@,
            )
    }

    /// A fresh engine with the given settings and no items.
    pub fn new(preview_width: u32, aspect: AspectRatio, scale: ImageScaling, equal: bool) -> (r:
        Packer)
        requires
            aspect.wf(),
            scale.wf(),
            preview_width <= 65535,
        ensures
            r.wf(),
            r.items@.len() == 0,
            r.preview_width == preview_width,
            r.aspect == aspect,
            r.scale == scale,
            r.equal == equal,
            r.margin == 0,
            r.packing_result is None,
            r.preview.width == 1,
            r.preview.height == 1,
    {
        Packer {
            items: Vec::new(),
            preview_width,
            aspect,
            equal,
            margin: 0,
            scale,
            preview: Raster::new(1, 1),
            actual_size: RectSize::new(0, 0),
            packing_result: None,
        }
    }
}

impl Default for Packer {
    fn default() -> (r: Packer)
        ensures
            r.wf(),
            r.items@.len() == 0,
            r.preview_width == 0,
            r.aspect == AspectRatio::Square,
            r.scale == ImageScaling::OneK,
            r.equal == false,
            r.margin == 0,
            r.packing_result is None,
    {
        Packer::new(0, AspectRatio::Square, ImageScaling::OneK, false)
    }
}

impl Packer {
    /// Appends one ingestion batch to the history.
    fn add_items(&mut self, new_items: Vec<Pic>)
        ensures
            final(self).items@ == old(self).items@.push(new_items),
            final(self).preview_width == old(self).preview_width,
            final(self).aspect == old(self).aspect,
            final(self).equal == old(self).equal,
            final(self).margin == old(self).margin,
            final(self).scale == old(self).scale,
            final(self).preview == old(self).preview,
            final(self).actual_size == old(self).actual_size,
            final(self).packing_result == old(self).packing_result,
    {
        self.items.push(new_items);
    }

    /// Recomputes the layout from the current state: flattens the batches in
    /// ingestion order, equalizes footprints if asked, grows each by the
    /// margin, and searches for a canvas matching the aspect ratio that fits
    /// a valid packing of every item. Returns the number of packed items. An
    /// empty item list yields no solution.
    pub fn pack(&mut self) -> (r: usize)
        requires
            old(self).wf(),
        ensures
            final(self).wf(),
            final(self).items == old(self).items,
            final(self).preview_width == old(self).preview_width,
            final(self).aspect == old(self).aspect,
            final(self).equal == old(self).equal,
            final(self).margin == old(self).margin,
            final(self).scale == old(self).scale,
            final(self).preview == old(self).preview,
            final(self).actual_size == old(self).actual_size,
            result_view(final(self).packing_result) == pack_model(
                old(self).batches_view(),
                old(self).aspect,
                old(self).equal,
                old(self).margin,
            ),
            r == flat_len(old(self).batches_view()),
    {
        let ghost bv = self.batches_view();
        let flat = flatten_all(&self.items);
        let count = flat.len();
        if count == 0 {
            self.packing_result = None;
            return 0;
        }
        proof {
            lemma_flatten_batches_wf(bv);
            assert forall|i: int| 0 <= i < flat@.len() implies pic_wf((#[trigger] flat@[i])@) by {
                assert(pics_view(flat@)[i] == flat@[i]@);
            }
        }
        let eq = equalized_items(&flat, self.equal);
        let sizes = footprints(&eq, self.margin);
        let (num, den) = self.aspect.div();
        let ghost eqv = pics_view(eq@);
        match search_canvas(&sizes, num, den) {
            None => {
                self.packing_result = None;
                count
            },
            Some((w, h, raw)) => {
                let n = eq.len();
                proof {
                    assert(packing_valid(w as int, h as int, sizes@, raw@));
                    assert(sizes@.len() == n);
                }
                let ordered = order_placements(n, &raw);
                proof {
                    assert forall|k: int|
                        0 <= k < n implies (#[trigger] ordered@[k]).x + ordered@[k].w <= 65535
                        && ordered@[k].y + ordered@[k].h <= 65535 by {
                        lemma_rect_for_props(w as int, h as int, sizes@, raw@, k);
                    }
                }
                let mut positions: Vec<PlacedItem> = Vec::new();
                let mut max_w: u64 = 0;
                let mut max_h: u64 = 0;
                let mut i: usize = 0;
                while i < n
                    invariant
                        0 <= i <= n,
                        n == eq@.len() == ordered@.len(),
                        eqv == pics_view(eq@),
                        positions@.len() == i,
                        forall|k: int|
                            0 <= k < i ==> (#[trigger] positions@[k])@ == (PlacedItemView {
                                rect: rect_of(ordered@[k]),
                                pic: eq@[k]@,
                            }),
                        max_w as int == max_right(positions@.map_values(|p: PlacedItem| p@)),
                        max_h as int == max_bottom(positions@.map_values(|p: PlacedItem| p@)),
                        max_w <= 65535,
                        max_h <= 65535,
                        forall|k: int|
                            0 <= k < n ==> (#[trigger] ordered@[k]).x + ordered@[k].w <= 65535
                                && ordered@[k].y + ordered@[k].h <= 65535,
                    decreases n - i,
                {
                    let ghost pos_prev = positions@;
                    let rp = ordered[i];
                    let item = PlacedItem {
                        rect: PlacedRect { x: rp.x, y: rp.y, w: rp.w, h: rp.h },
                        pic: eq[i].duplicate(),
                    };
                    let right = rp.x as u64 + rp.w as u64;
                    let bottom = rp.y as u64 + rp.h as u64;
                    if right > max_w {
                        max_w = right;
                    }
                    if bottom > max_h {
                        max_h = bottom;
                    }
                    positions.push(item);
                    proof {
                        let ps = positions@.map_values(|p: PlacedItem| p@);
                        assert(ps.drop_last() =~= pos_prev.map_values(|p: PlacedItem| p@));
                        assert(ps.last() == positions@[i as int]@);
                    }
                    i += 1;
                }
                let result = PackingResult {
                    total_w: w as usize,
                    total_h: h as usize,
                    max_w: max_w as usize,
                    max_h: max_h as usize,
                    positions,
                };
                proof {
                    let m = pack_model(bv, self.aspect, self.equal, self.margin);
                    assert(search_spec(sizes@, num as int, den as int) == Some(
                        (w as int, h as int, raw@),
                    ));
                    assert(result@.positions =~= positions_model(eqv, raw@));
                    assert(m == Some(result@));
                    assert forall|k: int| 0 <= k < result@.positions.len() implies {
                        &&& (#[trigger] result@.positions[k]).rect.x + result@.positions[k].rect.w
                            <= result@.total_w
                        &&& result@.positions[k].rect.y + result@.positions[k].rect.h
                            <= result@.total_h
                        &&& result@.positions[k].pic.width <= result@.positions[k].rect.w
                        &&& result@.positions[k].pic.height <= result@.positions[k].rect.h
                    } by {
                        lemma_rect_for_props(w as int, h as int, sizes@, raw@, k);
                        assert(sizes@[k] == (((eqv[k].width + self.margin) as usize, (eqv[k].height
                            + self.margin) as usize)));
                    }
                    lemma_max_right_le(
                        result@.positions,
                        result@.total_w as int,
                        result@.total_h as int,
                    );
                    assert(result_wf(result@));
                }
                self.packing_result = Some(result);
                count
            },
        }
    }
}

/// The crop extent: the width of the content the output frames. The render
/// crops away the solved canvas's unused margin: it shows the placements'
/// extent, widened when their height over the aspect divisor demands more,
/// but never beyond the solved canvas width, and at least one pixel so a
/// scale factor exists.
pub open spec fn crop_extent(pr: PackingResultView, num: int, den: int) -> int {
    let a = pr.max_w as int;
    let b = (pr.max_h as int * den) / num;
    let c = if a >= b {
        a
    } else {
        b
    };
    let d = if c <= pr.total_w as int {
        c
    } else {
        pr.total_w as int
    };
    if d < 1 {
        1
    } else {
        d
    }
}

/// Computes the crop extent of a solved layout.
fn crop_of(pr: &PackingResult, num: u64, den: u64) -> (r: u64)
    requires
        result_wf(pr@),
        1 <= num <= 1000000,
        1 <= den <= 1000000,
    ensures
        r == crop_extent(pr@, num as int, den as int),
        1 <= r <= 65535,
        pr@.max_w <= r,
{
    proof {
        assert((pr.max_h as int) * (den as int) <= 65535int * 1000000int) by (nonlinear_arith)
            requires
                pr.max_h <= 65535,
                den <= 1000000,
        ;
    }
    let a = pr.max_w as u64;
    let b = (pr.max_h as u64) * den / num;
    let c = if a >= b {
        a
    } else {
        b
    };
    let d = if c <= pr.total_w as u64 {
        c
    } else {
        pr.total_w as u64
    };
    if d < 1 {
        1
    } else {
        d
    }
}

/// A coordinate scaled from layout space to output space: `v * t / c`.
pub open spec fn scaled(v: int, t: int, c: int) -> int {
    (v * t) / c
}

/// Scales a layout coordinate to output space.
fn scale_val(v: u64, t: u64, c: u64) -> (r: u64)
    requires
        v <= 66560,
        t <= 65535,
        1 <= c,
    ensures
        r == scaled(v as int, t as int, c as int),
        r <= 66560 * 65535,
{
    proof {
        assert((v as int) * (t as int) <= 66560int * 65535int) by (nonlinear_arith)
            requires
                v <= 66560,
                t <= 65535,
        ;
        assert(((v as int) * (t as int)) / (c as int) <= (v as int) * (t as int));
    }
    v * t / c
}

/// A value no larger than the crop never scales past the output width.
proof fn lemma_scaled_within(v: int, t: int, c: int)
    requires
        0 <= v <= c,
        0 <= t,
        1 <= c,
    ensures
        scaled(v, t, c) <= t,
{
    assert((v * t) / c <= t) by (nonlinear_arith)
        requires
            0 <= v <= c,
            0 <= t,
            1 <= c,
    ;
}

/// The output box of placement `i` at scale `t / c`: the placement's corner
/// offset by half the margin, and the item's own size, scaled and rounded
/// down, filled with the item's placeholder color.
pub open spec fn scaled_box(pr: PackingResultView, margin: u32, t: int, c: int, i: int) -> PaintBox {
    let p = pr.positions[i];
    PaintBox {
        x: scaled(p.rect.x + margin / 2, t, c) as u64,
        y: scaled(p.rect.y + margin / 2, t, c) as u64,
        w: scaled(p.pic.width as int, t, c) as u64,
        h: scaled(p.pic.height as int, t, c) as u64,
        color: p.pic.color,
    }
}

/// The output boxes of all placements, in ingestion order.
pub open spec fn preview_boxes(pr: PackingResultView, margin: u32, t: int, c: int) -> Seq<
    PaintBox,
> {
    Seq::new(pr.positions.len(), |i: int| scaled_box(pr, margin, t, c, i))
}

/// What the layout preview paints: every placement's box when there is a
/// solution, nothing otherwise.
pub open spec fn preview_paint_boxes(
    pr: Option<PackingResultView>,
    margin: u32,
    t: int,
    num: int,
    den: int,
) -> Seq<PaintBox> {
    match pr {
        None => Seq::empty(),
        Some(p) => preview_boxes(p, margin, t, crop_extent(p, num, den)),
    }
}

/// Computes the output box of placement `i`.
fn scaled_box_of(pr: &PackingResult, margin: u32, t: u64, c: u64, i: usize) -> (r: PaintBox)
    requires
        result_wf(pr@),
        i < pr.positions@.len(),
        margin <= 1024,
        t <= 65535,
        1 <= c,
    ensures
        r == scaled_box(pr@, margin, t as int, c as int, i as int),
        r.x as int + r.w as int <= u64::MAX,
        r.y as int + r.h as int <= u64::MAX,
{
    let p = &pr.positions[i];
    proof {
        assert(pr@.positions[i as int] == pr.positions@[i as int]@);
    }
    let x = scale_val(p.rect.x as u64 + (margin / 2) as u64, t, c);
    let y = scale_val(p.rect.y as u64 + (margin / 2) as u64, t, c);
    let w = scale_val(p.pic.width as u64, t, c);
    let h = scale_val(p.pic.height as u64, t, c);
    PaintBox { x, y, w, h, color: p.pic.color }
}

/// The live-preview raster size: the preview width with the aspect ratio's
/// height, collapsed to one pixel if it would exceed the pixel budget.
pub open spec fn preview_target(pw: u32, aspect: AspectRatio) -> RectSize {
    let t = by_scale_and_ratio_spec(ImageScaling::Preview(pw), aspect);
    if t.w * t.h > PIXEL_LIMIT {
        RectSize { w: 1, h: 1 }
    } else {
        t
    }
}

/// A box small enough to composite: its resampled tile stays within the
/// pixel budget.
pub open spec fn box_fits(b: PaintBox) -> bool {
    b.w <= 65535 && b.h <= 65535 && b.w * b.h <= PIXEL_LIMIT
}

/// Every pixel of `r1` that the box covers (within `r0`'s bounds) holds the
/// tile's pixel for that position.
pub open spec fn box_holds_tile(b: PaintBox, tile: Seq<Rgba8>, r0: Raster, r1: Raster) -> bool {
    forall|px: int, py: int|
        0 <= px < r0.width && 0 <= py < r0.height && covers(b, px, py) ==> r1.pixel(px, py)
            == tile_pixel(tile, b.x, b.y, b.w, px, py)
}

/// The preview raster shows the placeholder pass of the engine's state: it
/// has the live-preview size and every pixel paints the solution's boxes
/// (nothing, on a state without a solution).
pub open spec fn preview_shows_state(p: Packer) -> bool {
    let target = preview_target(p.preview_width, p.aspect);
    let num = p.aspect.div_spec().0 as int;
    let den = p.aspect.div_spec().1 as int;
    &&& p.preview.width == target.w
    &&& p.preview.height == target.h
    &&& forall|px: int, py: int|
        0 <= px < target.w && 0 <= py < target.h ==> p.preview.pixel(px, py) == paint(
            preview_paint_boxes(
                result_view(p.packing_result),
                p.margin,
                target.w as int,
                num,
                den,
            ),
            px,
            py,
        )
}

impl Packer {
    /// Composites the layout preview. With `loaded` 0, allocates a fresh
    /// preview raster at the live-preview size and paints every placement as
    /// a flat box of its item's placeholder color — a blank raster when there
    /// is no solution. With `loaded` k > 0, composites the decoded image of
    /// placement k - 1, resampled to that placement's box, onto the existing
    /// preview; a missing image (a decode failure), an out-of-range index or
    /// an oversized box leaves the preview unchanged. Pixels outside the
    /// affected boxes always keep their value, and whenever a solution is
    /// present the engine records its actual extent.
    pub fn combine_thumbnails(&mut self, loaded: usize, img: Option<&SourceImage>)
        requires
            old(self).wf(),
            (img matches Some(s) ==> s.wf()),
        ensures
            final(self).wf(),
            final(self).items == old(self).items,
            final(self).preview_width == old(self).preview_width,
            final(self).aspect == old(self).aspect,
            final(self).equal == old(self).equal,
            final(self).margin == old(self).margin,
            final(self).scale == old(self).scale,
            final(self).packing_result == old(self).packing_result,
            final(self).actual_size == (match old(self).packing_result {
                Some(pr) => RectSize { w: pr@.max_w, h: pr@.max_h },
                None => old(self).actual_size,
            }),
            loaded == 0 ==> preview_shows_state(*final(self)),
            loaded > 0 ==> {
                let num = old(self).aspect.div_spec().0 as int;
                let den = old(self).aspect.div_spec().1 as int;
                &&& final(self).preview.width == old(self).preview.width
                &&& final(self).preview.height == old(self).preview.height
                &&& match old(self).packing_result {
                    Some(pr) => {
                        if loaded - 1 >= pr@.positions.len() || (img is None) {
                            final(self).preview == old(self).preview
                        } else {
                            let b = scaled_box(
                                pr@,
                                old(self).margin,
                                old(self).preview.width as int,
                                crop_extent(pr@, num, den),
                                loaded - 1,
                            );
                            &&& outside_box_unchanged(
                                b,
                                old(self).preview,
                                final(self).preview,
                            )
                            &&& !box_fits(b) ==> final(self).preview == old(self).preview
                            &&& box_fits(b) ==> box_holds_tile(
                                b,
                                rgba_seq(preview_tile(*img.unwrap(), b.w as int, b.h as int)),
                                old(self).preview,
                                final(self).preview,
                            )
                        }
                    },
                    None => final(self).preview == old(self).preview,
                }
            },
    {
        if loaded == 0 {
            let target = {
                let t = RectSize::by_scale_and_ratio(
                    &ImageScaling::Preview(self.preview_width),
                    &self.aspect,
                );
                proof {
                    assert(t.w * t.h <= 65535int * 65535int) by (nonlinear_arith)
                        requires
                            t.w <= 65535,
                            t.h <= 65535,
                    ;
                }
                if t.w * t.h > PIXEL_LIMIT {
                    RectSize { w: 1, h: 1 }
                } else {
                    t
                }
            };
            let mut fresh = Raster::new(target.w, target.h);
            match &self.packing_result {
                Some(pr) => {
                    let (num, den) = self.aspect.div();
                    let c = crop_of(pr, num, den);
                    let t = target.w as u64;
                    let n = pr.positions.len();
                    let ghost boxes = preview_boxes(
                        pr@,
                        self.margin,
                        target.w as int,
                        c as int,
                    );
                    let mut i: usize = 0;
                    while i < n
                        invariant
                            0 <= i <= n,
                            n == pr.positions@.len(),
                            result_wf(pr@),
                            self.margin <= 1024,
                            t == target.w as u64,
                            t <= 65535,
                            1 <= c <= 65535,
                            boxes == preview_boxes(pr@, self.margin, t as int, c as int),
                            boxes.len() == n,
                            fresh.wf(),
                            fresh.width == target.w,
                            fresh.height == target.h,
                            forall|px: int, py: int|
                                0 <= px < fresh.width && 0 <= py < fresh.height
                                    ==> fresh.pixel(px, py) == paint(
                                    boxes.take(i as int),
                                    px,
                                    py,
                                ),
                        decreases n - i,
                    {
                        let b = scaled_box_of(pr, self.margin, t, c, i);
                        fresh.fill_box(b);
                        proof {
                            assert(boxes.take(i + 1).drop_last() =~= boxes.take(i as int));
                            assert(boxes.take(i + 1).last() == b);
                        }
                        i += 1;
                    }
                    proof {
                        assert(boxes.take(n as int) =~= boxes);
                    }
                    let ms = RectSize::new(pr.max_w, pr.max_h);
                    self.actual_size = ms;
                },
                None => {},
            }
            self.preview = fresh;
        } else {
            match (&self.packing_result, img) {
                (Some(pr), Some(im)) => {
                    let (num, den) = self.aspect.div();
                    let c = crop_of(pr, num, den);
                    let idx = loaded - 1;
                    if idx < pr.positions.len() {
                        let t = self.preview.width as u64;
                        let b = scaled_box_of(pr, self.margin, t, c, idx);
                        let fits = b.w <= 65535 && b.h <= 65535 && {
                            proof {
                                assert((b.w as int) * (b.h as int) <= 65535int * 65535int)
                                    by (nonlinear_arith)
                                    requires
                                        b.w <= 65535,
                                        b.h <= 65535,
                                ;
                            }
                            b.w * b.h <= PIXEL_LIMIT as u64
                        };
                        if fits {
                            let bytes = resample_for_preview(im, b.w as u32, b.h as u32);
                            let tile = rgba_pixels(&bytes);
                            proof {
                                assert(tile@.len() == (4 * (b.w as int) * (b.h as int)) / 4);
                                assert((4 * (b.w as int) * (b.h as int)) / 4 == (b.w as int) * (
                                b.h as int)) by (nonlinear_arith);
                            }
                            self.preview.blit(&tile, b.x, b.y, b.w, b.h);
                        }
                    }
                    let ms = RectSize::new(pr.max_w, pr.max_h);
                    self.actual_size = ms;
                },
                (Some(pr), None) => {
                    let ms = RectSize::new(pr.max_w, pr.max_h);
                    self.actual_size = ms;
                },
                (None, _) => {},
            }
        }
    }
}

impl Packer {
    /// Ingests one dropped batch (appended only when non-empty), recomputes
    /// the layout and redraws the layout preview; returns the number of items
    /// now in the layout.
    pub fn update(&mut self, new_pics: Vec<Pic>) -> (r: usize)
        requires
            old(self).wf(),
            forall|i: int| 0 <= i < new_pics@.len() ==> pic_wf((#[trigger] new_pics@[i])@),
        ensures
            final(self).wf(),
            final(self).batches_view() == (if new_pics@.len() > 0 {
                old(self).batches_view().push(pics_view(new_pics@))
            } else {
                old(self).batches_view()
            }),
            final(self).preview_width == old(self).preview_width,
            final(self).aspect == old(self).aspect,
            final(self).equal == old(self).equal,
            final(self).margin == old(self).margin,
            final(self).scale == old(self).scale,
            result_view(final(self).packing_result) == pack_model(
                final(self).batches_view(),
                old(self).aspect,
                old(self).equal,
                old(self).margin,
            ),
            r == flat_len(final(self).batches_view()),
            preview_shows_state(*final(self)),
    {
        if new_pics.len() > 0 {
            let ghost bv = self.batches_view();
            let ghost nv = pics_view(new_pics@);
            self.add_items(new_pics);
            proof {
                assert(self.batches_view() =~= bv.push(nv));
            }
        }
        let num = self.pack();
        self.combine_thumbnails(0, None);
        num
    }

    /// Removes the most recent batch (the unit of undo) and recomputes the
    /// layout and preview from scratch; with no batches to remove, nothing
    /// changes and the count is zero.
    pub fn undo(&mut self) -> (r: usize)
        requires
            old(self).wf(),
        ensures
            final(self).wf(),
            final(self).batches_view() == (if old(self).items@.len() > 0 {
                old(self).batches_view().drop_last()
            } else {
                old(self).batches_view()
            }),
            final(self).preview_width == old(self).preview_width,
            final(self).aspect == old(self).aspect,
            final(self).equal == old(self).equal,
            final(self).margin == old(self).margin,
            final(self).scale == old(self).scale,
            old(self).items@.len() > 0 ==> result_view(final(self).packing_result) == pack_model(
                final(self).batches_view(),
                old(self).aspect,
                old(self).equal,
                old(self).margin,
            ) && r == flat_len(final(self).batches_view()) && preview_shows_state(*final(self)),
            old(self).items@.len() == 0 ==> *final(self) == *old(self) && r == 0,
    {
        if self.items.len() > 0 {
            let ghost bv = self.batches_view();
            self.items.pop();
            proof {
                assert(self.batches_view() =~= bv.drop_last());
            }
            return self.update(Vec::new());
        }
        0
    }

    /// Starts from scratch: every batch, the solution and the preview are
    /// dropped; the settings stay.
    pub fn clear(&mut self)
        requires
            old(self).wf(),
        ensures
            final(self).wf(),
            final(self).items@.len() == 0,
            final(self).packing_result is None,
            final(self).preview.width == 1,
            final(self).preview.height == 1,
            final(self).preview_width == old(self).preview_width,
            final(self).aspect == old(self).aspect,
            final(self).equal == old(self).equal,
            final(self).margin == old(self).margin,
            final(self).scale == old(self).scale,
    {
        self.items = Vec::new();
        self.packing_result = None;
        self.preview = Raster::new(1, 1);
        self.actual_size = RectSize::new(0, 0);
    }
}

/// The incremental-preview cursor: which placement to composite next and how
/// many there are. The host calls `update` once per frame, composites the
/// returned index, and stops once nothing is left; the core holds no timers.
#[derive(Debug, Clone, Copy, PartialEq, Eq, Structural)]
pub struct Counter {
    pub recent: i64,
    pub total: i64,
}

impl Default for Counter {
    fn default() -> (r: Counter)
        ensures
            r.recent == 0,
            r.total == 0,
    {
        Counter { recent: 0, total: 0 }
    }
}

impl Counter {
    /// Parks the cursor: nothing to composite.
    pub fn reset(&mut self)
        ensures
            final(self).recent == -1,
            final(self).total == -1,
    {
        self.recent = -1;
        self.total = -1;
    }

    /// Restarts the cursor for a layout of `num` placements.
    pub fn renew(&mut self, num: usize)
        requires
            num <= 0x7fffffffffffffff,
        ensures
            final(self).recent == -1,
            final(self).total == num,
    {
        self.recent = -1;
        self.total = num as i64;
    }

    /// Advances the cursor: a parked cursor wakes to step zero (the
    /// placeholder pass); after that each call yields the next placement
    /// index until all of them are done, then None.
    pub fn update(&mut self) -> (r: Option<i64>)
        ensures
            old(self).total == -1 ==> final(self).total == 0 && final(self).recent == old(
                self,
            ).recent && r == Some(0i64),
            old(self).total != -1 && old(self).recent >= old(self).total ==> *final(self)
                == *old(self) && (r is None),
            old(self).total != -1 && old(self).recent < old(self).total ==> final(self).recent
                == old(self).recent + 1 && final(self).total == old(self).total && r == Some(
                (old(self).recent + 1) as i64,
            ),
    {
        if self.total == -1 {
            self.total = 0;
            return Some(0);
        }
        if self.recent >= self.total {
            None
        } else {
            self.recent = self.recent + 1;
            Some(self.recent)
        }
    }

    /// Whether every placement has been composited.
    pub fn finished(&self) -> (r: bool)
        ensures
            r == (self.recent >= self.total),
    {
        self.recent >= self.total
    }
}

/// The export raster size: the solved layout's own pixel extent for Actual
/// scaling, the preset's size under the engine's aspect ratio otherwise.
pub open spec fn export_target(
    pr: PackingResultView,
    scale: ImageScaling,
    aspect: AspectRatio,
    preview_width: u32,
) -> RectSize {
    match scale {
        ImageScaling::Actual => RectSize { w: pr.max_w, h: pr.max_h },
        ImageScaling::Preview(_) => by_scale_and_ratio_spec(
            ImageScaling::Preview(preview_width),
            aspect,
        ),
        _ => by_scale_and_ratio_spec(scale, aspect),
    }
}

/// Every pixel outside the box keeps its value from `r0` to `r1`.
pub open spec fn outside_box_unchanged(b: PaintBox, r0: Raster, r1: Raster) -> bool {
    forall|px: int, py: int|
        0 <= px < r0.width && 0 <= py < r0.height && !covers(b, px, py) ==> r1.pixel(px, py)
            == r0.pixel(px, py)
}

/// The box an exported image tile lands in: at Actual scale the layout's own
/// pixels (scale one), otherwise the placement scaled to the export width
/// over the crop extent.
pub open spec fn export_box(
    pr: PackingResultView,
    margin: u32,
    scale: ImageScaling,
    raster_w: int,
    num: int,
    den: int,
    i: int,
) -> PaintBox {
    match scale {
        ImageScaling::Actual => scaled_box(pr, margin, 1, 1, i),
        _ => scaled_box(pr, margin, raster_w, crop_extent(pr, num, den), i),
    }
}

impl Packer {
    /// Starts a full-quality export render: a blank raster at the export
    /// size. None when there is no solved layout, or when the export raster
    /// would exceed the pixel budget.
    pub fn begin_export(&self) -> (r: Option<Raster>)
        requires
            self.wf(),
        ensures
            match self.packing_result {
                None => r is None,
                Some(pr) => {
                    let t = export_target(pr@, self.scale, self.aspect, self.preview_width);
                    if t.w * t.h <= PIXEL_LIMIT {
                        r is Some && r.unwrap().wf() && r.unwrap().width == t.w
                            && r.unwrap().height == t.h
                    } else {
                        r is None
                    }
                },
            },
    {
        match &self.packing_result {
            None => None,
            Some(pr) => {
                let t = match self.scale {
                    ImageScaling::Actual => RectSize::new(pr.max_w, pr.max_h),
                    ImageScaling::Preview(_) => RectSize::by_scale_and_ratio(
                        &ImageScaling::Preview(self.preview_width),
                        &self.aspect,
                    ),
                    _ => RectSize::by_scale_and_ratio(&self.scale, &self.aspect),
                };
                proof {
                    assert(t.w * t.h <= 65535int * 65535int) by (nonlinear_arith)
                        requires
                            t.w <= 65535,
                            t.h <= 65535,
                    ;
                }
                if t.w * t.h <= PIXEL_LIMIT {
                    Some(Raster::new(t.w, t.h))
                } else {
                    None
                }
            },
        }
    }

    /// The export box of placement `i` for this engine, onto a raster of the
    /// given width.
    pub open spec fn export_box_at(self, raster_w: int, i: int) -> PaintBox
        recommends
            (self.packing_result is Some),
    {
        export_box(
            self.packing_result.unwrap()@,
            self.margin,
            self.scale,
            raster_w,
            self.aspect.div_spec().0 as int,
            self.aspect.div_spec().1 as int,
            i,
        )
    }

    /// Composites one source image onto an export raster: the image, decoded
    /// by the caller and handed over as plain pixel values, is resampled with
    /// the export-quality filter to its placement's box and written there.
    /// Returns whether the tile was drawn: exactly when the box fits the
    /// pixel budget. A drawn box holds the resampled image; pixels outside
    /// the box always keep their value; a skipped tile changes nothing.
    pub fn export_tile(&self, raster: &mut Raster, index: usize, im: &SourceImage) -> (r: bool)
        requires
            self.wf(),
            old(raster).wf(),
            im.wf(),
            (self.packing_result is Some),
            index < self.packing_result.unwrap()@.positions.len(),
        ensures
            final(raster).wf(),
            final(raster).width == old(raster).width,
            final(raster).height == old(raster).height,
            r == box_fits(self.export_box_at(old(raster).width as int, index as int)),
            outside_box_unchanged(
                self.export_box_at(old(raster).width as int, index as int),
                *old(raster),
                *final(raster),
            ),
            !r ==> *final(raster) == *old(raster),
            r ==> ({
                let b = self.export_box_at(old(raster).width as int, index as int);
                box_holds_tile(
                    b,
                    rgba_seq(
                        resize_of(
                            im.width as int,
                            im.height as int,
                            im.bytes@,
                            b.w as int,
                            b.h as int,
                        ),
                    ),
                    *old(raster),
                    *final(raster),
                )
            }),
    {
        match &self.packing_result {
            Some(pr) => {
                let (num, den) = self.aspect.div();
                let b = match self.scale {
                    ImageScaling::Actual => scaled_box_of(pr, self.margin, 1, 1, index),
                    _ => {
                        let c = crop_of(pr, num, den);
                        let t = raster.width as u64;
                        scaled_box_of(pr, self.margin, t, c, index)
                    },
                };
                let fits = b.w <= 65535 && b.h <= 65535 && {
                    proof {
                        assert((b.w as int) * (b.h as int) <= 65535int * 65535int)
                            by (nonlinear_arith)
                            requires
                                b.w <= 65535,
                                b.h <= 65535,
                        ;
                    }
                    b.w * b.h <= PIXEL_LIMIT as u64
                };
                if fits {
                    let bytes = resample_quality(im.width, im.height, &im.bytes, b.w as u32, b.h as u32);
                    let tile = rgba_pixels(&bytes);
                    proof {
                        assert(tile@.len() == (4 * (b.w as int) * (b.h as int)) / 4);
                        assert((4 * (b.w as int) * (b.h as int)) / 4 == (b.w as int) * (
                        b.h as int)) by (nonlinear_arith);
                    }
                    raster.blit(&tile, b.x, b.y, b.w, b.h);
                    true
                } else {
                    false
                }
            },
            None => false,
        }
    }
}

/// Two solved rectangles cover disjoint areas.
pub open spec fn placed_rects_disjoint(a: PlacedRect, b: PlacedRect) -> bool {
    a.x + a.w <= b.x || b.x + b.w <= a.x || a.y + a.h <= b.y || b.y + b.h <= a.y
}

/// A solved layout is sound for an item list of length `n`: one placement per
/// item, each contained in the canvas, and no two overlapping.
pub open spec fn solution_sound(pr: PackingResultView, n: int) -> bool {
    &&& pr.positions.len() == n
    &&& forall|i: int|
        0 <= i < pr.positions.len() ==> (#[trigger] pr.positions[i]).rect.x
            + pr.positions[i].rect.w <= pr.total_w && pr.positions[i].rect.y
            + pr.positions[i].rect.h <= pr.total_h
    &&& forall|i1: int, i2: int|
        0 <= i1 < pr.positions.len() && 0 <= i2 < pr.positions.len() && i1 != i2
            ==> placed_rects_disjoint(
            (#[trigger] pr.positions[i1]).rect,
            (#[trigger] pr.positions[i2]).rect,
        )
}

/// A well-formed aspect ratio has a divisor with both parts in range.
proof fn lemma_div_spec_bounds(aspect: AspectRatio)
    requires
        aspect.wf(),
    ensures
        1 <= aspect.div_spec().0 <= 1000000,
        1 <= aspect.div_spec().1 <= 1000000,
{
}

/// Law: every pack is sound. For any engine state, a pack either reports no
/// solution, or returns a layout with exactly one placement per flattened
/// item, every placement contained in the returned canvas and no two
/// placements overlapping.
pub proof fn lemma_pack_model_valid(
    batches: Seq<Seq<PicView>>,
    aspect: AspectRatio,
    equal: bool,
    margin: u32,
)
    requires
        aspect.wf(),
        (pack_model(batches, aspect, equal, margin) is Some),
    ensures
        solution_sound(
            pack_model(batches, aspect, equal, margin).unwrap(),
            flat_len(batches),
        ),
{
    let flat = flatten_batches(batches);
    let eq = equalize(flat, equal);
    let sizes = footprints_spec(eq, margin);
    let num = aspect.div_spec().0 as int;
    let den = aspect.div_spec().1 as int;
    lemma_div_spec_bounds(aspect);
    lemma_search_spec_valid(sizes, num, den);
    let t = search_spec(sizes, num, den).unwrap();
    let pr = pack_model(batches, aspect, equal, margin).unwrap();
    assert(eq.len() == flat.len());
    assert(pr.positions == positions_model(eq, t.2));
    assert forall|i: int|
        0 <= i < pr.positions.len() implies (#[trigger] pr.positions[i]).rect.x
        + pr.positions[i].rect.w <= pr.total_w && pr.positions[i].rect.y + pr.positions[i].rect.h
        <= pr.total_h by {
        lemma_rect_for_props(t.0, t.1, sizes, t.2, i);
    }
    assert forall|i1: int, i2: int|
        0 <= i1 < pr.positions.len() && 0 <= i2 < pr.positions.len() && i1
        != i2 implies placed_rects_disjoint(
        (#[trigger] pr.positions[i1]).rect,
        (#[trigger] pr.positions[i2]).rect,
    ) by {
        lemma_rect_for_disjoint(t.0, t.1, sizes, t.2, i1, i2);
    }
}

/// Law: the solved canvas converges to the requested divisor within the
/// search's integer granularity. Its height is exactly the floor of
/// width * num / den, so the true ratio is matched to within one denominator
/// unit: den * height <= width * num < den * (height + 1).
pub proof fn lemma_pack_model_aspect(
    batches: Seq<Seq<PicView>>,
    aspect: AspectRatio,
    equal: bool,
    margin: u32,
)
    requires
        aspect.wf(),
        (pack_model(batches, aspect, equal, margin) is Some),
    ensures
        ({
            let pr = pack_model(batches, aspect, equal, margin).unwrap();
            let num = aspect.div_spec().0 as int;
            let den = aspect.div_spec().1 as int;
            pr.total_h as int == ((pr.total_w as int) * num) / den && den * (pr.total_h as int)
                <= (pr.total_w as int) * num < den * ((pr.total_h as int) + 1)
        }),
{
    let flat = flatten_batches(batches);
    let eq = equalize(flat, equal);
    let sizes = footprints_spec(eq, margin);
    let num = aspect.div_spec().0 as int;
    let den = aspect.div_spec().1 as int;
    lemma_div_spec_bounds(aspect);
    lemma_search_spec_valid(sizes, num, den);
    let t = search_spec(sizes, num, den).unwrap();
    let pr = pack_model(batches, aspect, equal, margin).unwrap();
    assert(pr.total_w as int == t.0 && pr.total_h as int == t.1);
    vstd::arithmetic::div_mod::lemma_fundamental_div_mod(t.0 * num, den);
    vstd::arithmetic::div_mod::lemma_mod_bound(t.0 * num, den);
    assert(den * (t.1 + 1) == den * t.1 + den) by (nonlinear_arith);
}

/// Law: undo is the exact inverse of the most recent add. Adding a batch and
/// undoing it restores both the flattened item list and the layout solution
/// of the prior state, exactly.
pub proof fn lemma_undo_inverse(
    batches: Seq<Seq<PicView>>,
    batch: Seq<PicView>,
    aspect: AspectRatio,
    equal: bool,
    margin: u32,
)
    ensures
        batches.push(batch).drop_last() == batches,
        flatten_batches(batches.push(batch).drop_last()) == flatten_batches(batches),
        pack_model(batches.push(batch).drop_last(), aspect, equal, margin) == pack_model(
            batches,
            aspect,
            equal,
            margin,
        ),
{
    assert(batches.push(batch).drop_last() =~= batches);
}

/// Law: packing is a function of the engine state alone. Two packs over equal
/// batch lists and equal settings yield identical solutions; in particular,
/// packing twice with no state change in between returns the same layout.
pub proof fn lemma_pack_deterministic(
    batches1: Seq<Seq<PicView>>,
    batches2: Seq<Seq<PicView>>,
    aspect: AspectRatio,
    equal: bool,
    margin: u32,
)
    requires
        batches1 == batches2,
    ensures
        pack_model(batches1, aspect, equal, margin) == pack_model(batches2, aspect, equal, margin),
{
}

/// Law: placeholder and photographic composition share their geometry. For
/// one solution, margin and output scale, the box the layout preview fills
/// with placement i's flat color is exactly the box the photographic pass
/// composites placement i's resampled pixels into; the two modes differ only
/// in fill content.
pub proof fn lemma_modes_share_geometry(
    pr: PackingResultView,
    margin: u32,
    t: int,
    c: int,
    i: int,
)
    requires
        0 <= i < pr.positions.len(),
    ensures
        preview_boxes(pr, margin, t, c)[i] == scaled_box(pr, margin, t, c, i),
{
}

} // verus!
