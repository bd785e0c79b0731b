//! Packable items: one ingested image with its identity, pixel size and
//! placeholder color.

use vstd::prelude::*;
use crate::utils::Rgba8;

verus! {

/// Largest accepted width or height, in pixels, of an ingested image: an
/// item's packing footprint (its side plus the margin, which is capped at
/// 1024) must still fit the engine's 65535-pixel canvas bound.
pub const MAX_DIM: u32 = 64511;

/// One packable item: an image's path, its natural pixel size, and the flat
/// color standing in for it in layout previews.
#[derive(Debug, Clone)]
pub struct Pic {
    pub file: String,
    pub width: u32,
    pub height: u32,
    pub color: Rgba8,
}

/// The mathematical value of a `Pic`.
pub ghost struct PicView {
    pub file: Seq<char>,
    pub width: u32,
    pub height: u32,
    pub color: Rgba8,
}

impl View for Pic {
    type V = PicView;

    open spec fn view(&self) -> PicView {
        PicView { file: self.file@, width: self.width, height: self.height, color: self.color }
    }
}

/// An item's sides are positive and within the supported range.
pub open spec fn pic_wf(p: PicView) -> bool {
    1 <= p.width <= MAX_DIM && 1 <= p.height <= MAX_DIM
}

impl Pic {
    /// Accepts a probed image as a packable item exactly when both probed
    /// sides are positive and no larger than MAX_DIM; anything else is not an
    /// image the engine can lay out and is skipped by ingestion.
    pub fn new(file: String, width: u32, height: u32, color: Rgba8) -> (r: Option<Pic>)
        ensures
            (1 <= width <= MAX_DIM && 1 <= height <= MAX_DIM) <==> r is Some,
            r is Some ==> r.unwrap()@ == (PicView { file: file@, width, height, color }),
            r is Some ==> pic_wf(r.unwrap()@),
    {
        if 1 <= width && width <= MAX_DIM && 1 <= height && height <= MAX_DIM {
            Some(Pic { file, width, height, color })
        } else {
            None
        }
    }
}

} // verus!
