//! The compositor: rasterizes a solved layout as flat placeholder boxes or as
//! resampled image tiles, at an arbitrary output resolution.

use vstd::prelude::*;
use crate::utils::Rgba8;

verus! {

/// Largest pixel count of any raster the compositor will allocate.
pub const PIXEL_LIMIT: usize = 268435456;

/// An RGBA raster: a pixel buffer in row-major order.
#[derive(Debug, Clone)]
pub struct Raster {
    pub width: usize,
    pub height: usize,
    pub pixels: Vec<Rgba8>,
}

impl Raster {
    /// The buffer holds exactly one pixel per coordinate and the sides are
    /// within the engine's canvas range.
    pub open spec fn wf(self) -> bool {
        self.pixels@.len() == self.width * self.height && self.width <= 65535 && self.height
            <= 65535 && self.width * self.height <= PIXEL_LIMIT
    }

    /// The pixel at column `px` of row `py`.
    pub open spec fn pixel(self, px: int, py: int) -> Rgba8 {
        self.pixels@[py * self.width + px]
    }

    /// A fully transparent raster of the given size.
    pub fn new(width: usize, height: usize) -> (r: Raster)
        requires
            width <= 65535,
            height <= 65535,
            width * height <= PIXEL_LIMIT,
        ensures
            r.wf(),
            r.width == width,
            r.height == height,
            forall|px: int, py: int|
                0 <= px < width && 0 <= py < height ==> r.pixel(px, py) == (Rgba8 {
                    r: 0,
                    g: 0,
                    b: 0,
                    a: 0,
                }),
    {
        let n = width * height;
        let mut pixels: Vec<Rgba8> = Vec::new();
        let mut i: usize = 0;
        while i < n
            invariant
                0 <= i <= n,
                pixels@.len() == i,
                forall|k: int|
                    0 <= k < i ==> pixels@[k] == (Rgba8 { r: 0, g: 0, b: 0, a: 0 }),
            decreases n - i,
        {
            pixels.push(Rgba8 { r: 0, g: 0, b: 0, a: 0 });
            i += 1;
        }
        let r = Raster { width, height, pixels };
        proof {
            assert forall|px: int, py: int|
                0 <= px < width && 0 <= py < height implies r.pixel(px, py) == (Rgba8 {
                r: 0,
                g: 0,
                b: 0,
                a: 0,
            }) by {
                lemma_row_major_bounds(width as int, height as int, px, py);
            }
        }
        r
    }
}

/// A row-major index of an in-bounds coordinate is in bounds.
proof fn lemma_row_major_bounds(w: int, h: int, px: int, py: int)
    requires
        0 <= px < w,
        0 <= py < h,
    ensures
        0 <= py * w + px < w * h,
{
    assert(0 <= py * w + px < w * h) by (nonlinear_arith)
        requires
            0 <= px < w,
            0 <= py < h,
    ;
}

/// Two distinct in-bounds coordinates have distinct row-major indices.
proof fn lemma_row_major_unique(w: int, x1: int, y1: int, x2: int, y2: int)
    requires
        0 <= x1 < w,
        0 <= x2 < w,
        0 <= y1,
        0 <= y2,
        y1 * w + x1 == y2 * w + x2,
    ensures
        x1 == x2 && y1 == y2,
{
    assert(x1 == x2 && y1 == y2) by (nonlinear_arith)
        requires
            0 <= x1 < w,
            0 <= x2 < w,
            0 <= y1,
            0 <= y2,
            y1 * w + x1 == y2 * w + x2,
    ;
}

/// A box to paint: position, size and fill color, in output pixels.
#[derive(Debug, Clone, Copy, PartialEq, Eq, Structural)]
pub struct PaintBox {
    pub x: u64,
    pub y: u64,
    pub w: u64,
    pub h: u64,
    pub color: Rgba8,
}

/// Whether the box covers the pixel at (px, py).
pub open spec fn covers(b: PaintBox, px: int, py: int) -> bool {
    b.x <= px < b.x + b.w && b.y <= py < b.y + b.h
}

/// The color at (px, py) after painting `boxes`, in order, over a transparent
/// background: the last box covering the pixel wins; a pixel no box covers is
/// fully transparent.
pub open spec fn paint(boxes: Seq<PaintBox>, px: int, py: int) -> Rgba8
    decreases boxes.len(),
{
    if boxes.len() == 0 {
        Rgba8 { r: 0, g: 0, b: 0, a: 0 }
    } else if covers(boxes.last(), px, py) {
        boxes.last().color
    } else {
        paint(boxes.drop_last(), px, py)
    }
}

impl Raster {
    /// Fills the box with its color, clipped to the raster: pixels the box
    /// covers take its color, every other pixel keeps its value.
    pub fn fill_box(&mut self, b: PaintBox)
        requires
            old(self).wf(),
            b.x as int + b.w as int <= u64::MAX,
            b.y as int + b.h as int <= u64::MAX,
        ensures
            final(self).wf(),
            final(self).width == old(self).width,
            final(self).height == old(self).height,
            forall|px: int, py: int|
                0 <= px < old(self).width && 0 <= py < old(self).height ==> final(self).pixel(
                    px,
                    py,
                ) == (if covers(b, px, py) {
                    b.color
                } else {
                    old(self).pixel(px, py)
                }),
    {
        let ghost orig = *self;
        let w = self.width;
        let h = self.height;
        if w == 0 || h == 0 {
            return ;
        }
        let x0 = if b.x > w as u64 {
            w
        } else {
            b.x as usize
        };
        let y0 = if b.y > h as u64 {
            h
        } else {
            b.y as usize
        };
        let x1 = if b.x + b.w > w as u64 {
            w
        } else {
            (b.x + b.w) as usize
        };
        let y1 = if b.y + b.h > h as u64 {
            h
        } else {
            (b.y + b.h) as usize
        };
        let mut py = y0;
        while py < y1
            invariant
                orig.wf(),
                self.wf(),
                self.width == orig.width == w,
                self.height == orig.height == h,
                0 < w <= 65535,
                0 < h <= 65535,
                y0 <= py || py == y0,
                py <= y1 || py == y0,
                y1 <= h,
                x0 <= x1 <= w,
                x0 as int == (if b.x > w as u64 {
                    w as int
                } else {
                    b.x as int
                }),
                y0 as int == (if b.y > h as u64 {
                    h as int
                } else {
                    b.y as int
                }),
                x1 as int == (if b.x + b.w > w as u64 {
                    w as int
                } else {
                    b.x + b.w
                }),
                y1 as int == (if b.y + b.h > h as u64 {
                    h as int
                } else {
                    b.y + b.h
                }),
                forall|q: int|
                    0 <= q < w * h ==> (#[trigger] self.pixels@[q]) == (if covers(
                        b,
                        q % (w as int),
                        q / (w as int),
                    ) && q / (w as int) < py {
                        b.color
                    } else {
                        orig.pixels@[q]
                    }),
            decreases y1 - py,
        {
            let mut px = x0;
            while px < x1
                invariant
                    orig.wf(),
                    self.wf(),
                    self.width == orig.width == w,
                    self.height == orig.height == h,
                    0 < w <= 65535,
                    0 < h <= 65535,
                    y0 <= py < y1,
                    y1 <= h,
                    x0 <= px || px == x0,
                    px <= x1 || px == x0,
                    x0 <= x1 <= w,
                    x0 as int == (if b.x > w as u64 {
                        w as int
                    } else {
                        b.x as int
                    }),
                    x1 as int == (if b.x + b.w > w as u64 {
                        w as int
                    } else {
                        b.x + b.w
                    }),
                    y0 as int == (if b.y > h as u64 {
                        h as int
                    } else {
                        b.y as int
                    }),
                    y1 as int == (if b.y + b.h > h as u64 {
                        h as int
                    } else {
                        b.y + b.h
                    }),
                    forall|q: int|
                        0 <= q < w * h ==> (#[trigger] self.pixels@[q]) == (if covers(
                            b,
                            q % (w as int),
                            q / (w as int),
                        ) && (q / (w as int) < py || (q / (w as int) == py && q % (w as int)
                            < px)) {
                            b.color
                        } else {
                            orig.pixels@[q]
                        }),
                decreases x1 - px,
            {
                proof {
                    lemma_row_major_bounds(w as int, h as int, px as int, py as int);
                    assert(vstd::std_specs::vec::spec_vec_len(&self.pixels) == self.pixels@.len());
                }
                let idx = py * w + px;
                self.pixels.set(idx, b.color);
                proof {
                    vstd::arithmetic::div_mod::lemma_fundamental_div_mod_converse(
                        idx as int,
                        w as int,
                        py as int,
                        px as int,
                    );
                    assert forall|q: int|
                        0 <= q < w * h && q != idx implies #[trigger] (q / (w as int)) != py as int
                        || q % (w as int) != px as int by {
                        vstd::arithmetic::div_mod::lemma_fundamental_div_mod(q, w as int);
                        if q / (w as int) == py as int && q % (w as int) == px as int {
                            assert(q == (w as int) * (py as int) + (px as int));
                            assert((w as int) * (py as int) == (py as int) * (w as int))
                                by (nonlinear_arith);
                            assert(q == idx);
                        }
                    }
                }
                px += 1;
            }
            py += 1;
        }
        proof {
            assert forall|px: int, py: int|
                0 <= px < orig.width && 0 <= py < orig.height implies self.pixel(px, py) == (
            if covers(b, px, py) {
                b.color
            } else {
                orig.pixel(px, py)
            }) by {
                lemma_row_major_bounds(w as int, h as int, px, py);
                vstd::arithmetic::div_mod::lemma_fundamental_div_mod_converse(
                    py * (w as int) + px,
                    w as int,
                    py,
                    px,
                );
            }
        }
    }
}

/// Whether the rectangle at (x, y) of size w x h covers the pixel (px, py).
pub open spec fn rect_covers(x: u64, y: u64, w: u64, h: u64, px: int, py: int) -> bool {
    x <= px < x + w && y <= py < y + h
}

/// The tile pixel that lands on (px, py) when the tile (in row-major order,
/// `dw` wide) is placed at (dx, dy).
pub open spec fn tile_pixel(tile: Seq<Rgba8>, dx: u64, dy: u64, dw: u64, px: int, py: int) -> Rgba8 {
    tile[(py - dy) * dw + (px - dx)]
}

impl Raster {
    /// Copies a tile onto the raster at (dx, dy), clipped to the raster:
    /// pixels the tile covers take the tile's pixels, every other pixel keeps
    /// its value (tiles replace what is under them; layout items do not
    /// overlap, so nothing is blended).
    pub fn blit(&mut self, tile: &Vec<Rgba8>, dx: u64, dy: u64, dw: u64, dh: u64)
        requires
            old(self).wf(),
            tile@.len() == dw * dh,
            dx as int + dw as int <= u64::MAX,
            dy as int + dh as int <= u64::MAX,
        ensures
            final(self).wf(),
            final(self).width == old(self).width,
            final(self).height == old(self).height,
            forall|px: int, py: int|
                0 <= px < old(self).width && 0 <= py < old(self).height ==> final(self).pixel(
                    px,
                    py,
                ) == (if rect_covers(dx, dy, dw, dh, px, py) {
                    tile_pixel(tile@, dx, dy, dw, px, py)
                } else {
                    old(self).pixel(px, py)
                }),
    {
        let ghost orig = *self;
        let w = self.width;
        let h = self.height;
        if w == 0 || h == 0 {
            return ;
        }
        let x0 = if dx > w as u64 {
            w
        } else {
            dx as usize
        };
        let y0 = if dy > h as u64 {
            h
        } else {
            dy as usize
        };
        let x1 = if dx + dw > w as u64 {
            w
        } else {
            (dx + dw) as usize
        };
        let y1 = if dy + dh > h as u64 {
            h
        } else {
            (dy + dh) as usize
        };
        let mut py = y0;
        while py < y1
            invariant
                orig.wf(),
                self.wf(),
                self.width == orig.width == w,
                self.height == orig.height == h,
                0 < w <= 65535,
                0 < h <= 65535,
                y0 <= py || py == y0,
                py <= y1 || py == y0,
                y1 <= h,
                x0 <= x1 <= w,
                tile@.len() == dw * dh,
                x0 as int == (if dx > w as u64 {
                    w as int
                } else {
                    dx as int
                }),
                y0 as int == (if dy > h as u64 {
                    h as int
                } else {
                    dy as int
                }),
                x1 as int == (if dx + dw > w as u64 {
                    w as int
                } else {
                    dx + dw
                }),
                y1 as int == (if dy + dh > h as u64 {
                    h as int
                } else {
                    dy + dh
                }),
                forall|q: int|
                    0 <= q < w * h ==> (#[trigger] self.pixels@[q]) == (if rect_covers(
                        dx,
                        dy,
                        dw,
                        dh,
                        q % (w as int),
                        q / (w as int),
                    ) && q / (w as int) < py {
                        tile_pixel(tile@, dx, dy, dw, q % (w as int), q / (w as int))
                    } else {
                        orig.pixels@[q]
                    }),
            decreases y1 - py,
        {
            let mut px = x0;
            while px < x1
                invariant
                    orig.wf(),
                    self.wf(),
                    self.width == orig.width == w,
                    self.height == orig.height == h,
                    0 < w <= 65535,
                    0 < h <= 65535,
                    y0 <= py < y1,
                    y1 <= h,
                    x0 <= px || px == x0,
                    px <= x1 || px == x0,
                    x0 <= x1 <= w,
                    tile@.len() == dw * dh,
                    x0 as int == (if dx > w as u64 {
                        w as int
                    } else {
                        dx as int
                    }),
                    x1 as int == (if dx + dw > w as u64 {
                        w as int
                    } else {
                        dx + dw
                    }),
                    y0 as int == (if dy > h as u64 {
                        h as int
                    } else {
                        dy as int
                    }),
                    y1 as int == (if dy + dh > h as u64 {
                        h as int
                    } else {
                        dy + dh
                    }),
                    forall|q: int|
                        0 <= q < w * h ==> (#[trigger] self.pixels@[q]) == (if rect_covers(
                            dx,
                            dy,
                            dw,
                            dh,
                            q % (w as int),
                            q / (w as int),
                        ) && (q / (w as int) < py || (q / (w as int) == py && q % (w as int)
                            < px)) {
                            tile_pixel(tile@, dx, dy, dw, q % (w as int), q / (w as int))
                        } else {
                            orig.pixels@[q]
                        }),
                decreases x1 - px,
            {
                proof {
                    lemma_row_major_bounds(w as int, h as int, px as int, py as int);
                    lemma_row_major_bounds(
                        dw as int,
                        dh as int,
                        px - dx,
                        py - dy,
                    );
                    assert(vstd::std_specs::vec::spec_vec_len(&self.pixels) == self.pixels@.len());
                    assert(vstd::std_specs::vec::spec_vec_len(tile) == tile@.len());
                }
                let idx = py * w + px;
                let tidx = ((py as u64 - dy) * dw + (px as u64 - dx)) as usize;
                let v = tile[tidx];
                self.pixels.set(idx, v);
                proof {
                    vstd::arithmetic::div_mod::lemma_fundamental_div_mod_converse(
                        idx as int,
                        w as int,
                        py as int,
                        px as int,
                    );
                    assert forall|q: int|
                        0 <= q < w * h && q != idx implies #[trigger] (q / (w as int)) != py as int
                        || q % (w as int) != px as int by {
                        vstd::arithmetic::div_mod::lemma_fundamental_div_mod(q, w as int);
                        if q / (w as int) == py as int && q % (w as int) == px as int {
                            assert(q == (w as int) * (py as int) + (px as int));
                            assert((w as int) * (py as int) == (py as int) * (w as int))
                                by (nonlinear_arith);
                            assert(q == idx);
                        }
                    }
                }
                px += 1;
            }
            py += 1;
        }
        proof {
            assert forall|px: int, py: int|
                0 <= px < orig.width && 0 <= py < orig.height implies self.pixel(px, py) == (
            if rect_covers(dx, dy, dw, dh, px, py) {
                tile_pixel(tile@, dx, dy, dw, px, py)
            } else {
                orig.pixel(px, py)
            }) by {
                lemma_row_major_bounds(w as int, h as int, px, py);
                vstd::arithmetic::div_mod::lemma_fundamental_div_mod_converse(
                    py * (w as int) + px,
                    w as int,
                    py,
                    px,
                );
            }
        }
    }
}

/// The pixels an RGBA byte buffer spells, four consecutive bytes each.
pub open spec fn rgba_seq(bytes: Seq<u8>) -> Seq<Rgba8> {
    Seq::new(
        bytes.len() / 4,
        |i: int|
            Rgba8 {
                r: bytes[4 * i],
                g: bytes[4 * i + 1],
                b: bytes[4 * i + 2],
                a: bytes[4 * i + 3],
            },
    )
}

/// Groups a raw RGBA byte buffer into pixels: four consecutive bytes each.
pub fn rgba_pixels(bytes: &Vec<u8>) -> (r: Vec<Rgba8>)
    ensures
        r@ == rgba_seq(bytes@),
        r@.len() == bytes@.len() / 4,
{
    let n = bytes.len() / 4;
    let mut r: Vec<Rgba8> = Vec::new();
    let mut i: usize = 0;
    while i < n
        invariant
            0 <= i <= n,
            n == bytes@.len() / 4,
            4 * n <= bytes@.len(),
            r@.len() == i,
            forall|k: int|
                0 <= k < i ==> (#[trigger] r@[k]) == (Rgba8 {
                    r: bytes@[4 * k],
                    g: bytes@[4 * k + 1],
                    b: bytes@[4 * k + 2],
                    a: bytes@[4 * k + 3],
                }),
        decreases n - i,
    {
        proof {
            assert(vstd::std_specs::vec::spec_vec_len(bytes) == bytes@.len());
        }
        let p = Rgba8 {
            r: bytes[4 * i],
            g: bytes[4 * i + 1],
            b: bytes[4 * i + 2],
            a: bytes[4 * i + 3],
        };
        r.push(p);
        i += 1;
    }
    proof {
        assert(r@ =~= rgba_seq(bytes@));
    }
    r
}

/// A decoded source image, held as plain values: its pixel size and its RGBA
/// bytes in row-major order, four per pixel.
#[derive(Debug, Clone)]
pub struct SourceImage {
    pub width: u32,
    pub height: u32,
    pub bytes: Vec<u8>,
}

impl SourceImage {
    /// The buffer holds exactly four bytes per pixel and the image is within
    /// the compositor's pixel budget.
    pub open spec fn wf(self) -> bool {
        self.bytes@.len() == 4 * (self.width as int) * (self.height as int) && (self.width as int)
            * (self.height as int) <= PIXEL_LIMIT
    }

    /// Wraps a decoded image's parts; None unless the buffer length matches
    /// the size and the image fits the pixel budget.
    pub fn new(width: u32, height: u32, bytes: Vec<u8>) -> (r: Option<SourceImage>)
        ensures
            match r {
                Some(s) => s.wf() && s.width == width && s.height == height && s.bytes@ == bytes@,
                None => (width as int) * (height as int) > PIXEL_LIMIT || bytes@.len() != 4 * (
                width as int) * (height as int),
            },
    {
        proof {
            assert((width as int) * (height as int) <= 0xffffffffint * 0xffffffffint)
                by (nonlinear_arith)
                requires
                    width <= 0xffffffff,
                    height <= 0xffffffff,
            ;
        }
        let wh = (width as u64) * (height as u64);
        if wh > PIXEL_LIMIT as u64 {
            return None;
        }
        proof {
            assert(vstd::std_specs::vec::spec_vec_len(&bytes) == bytes@.len());
            assert(4 * (wh as int) == 4 * (width as int) * (height as int)) by (nonlinear_arith)
                requires
                    wh == (width as int) * (height as int),
            ;
        }
        if (bytes.len() as u64) != 4 * wh {
            return None;
        }
        Some(SourceImage { width, height, bytes })
    }
}

/// The RGBA bytes image::imageops::thumbnail returns when a source of the
/// given size and bytes is resampled to `w` x `h`: a pure function of its
/// arguments.
pub uninterp spec fn thumb_of(sw: int, sh: int, src: Seq<u8>, w: int, h: int) -> Seq<u8>;

/// The RGBA bytes image::imageops::resize with the Catmull-Rom filter returns
/// for the same arguments: a pure function of its arguments.
pub uninterp spec fn resize_of(sw: int, sh: int, src: Seq<u8>, w: int, h: int) -> Seq<u8>;

/// Relies on image::RgbaImage::from_raw (which accepts a buffer of exactly
/// 4 * sw * sh bytes) and image::imageops::thumbnail: a fast box-filter
/// resample to `w` x `h` RGBA pixels, handed out as `4 * w * h` raw bytes,
/// a pure function of the arguments. The block bound keeps thumbnail's u32
/// per-output-pixel accumulator safe: it sums one source block per output
/// pixel, at most 255 per sample, and the block is at most
/// (sw/w + 2) * (sh/h + 2) samples, so the sum stays below u32::MAX.
#[verifier::external_body]
pub(crate) fn resample_fast(sw: u32, sh: u32, src: &Vec<u8>, w: u32, h: u32) -> (r: Vec<u8>)
    requires
        src@.len() == 4 * (sw as int) * (sh as int),
        (w as int) * (h as int) <= PIXEL_LIMIT,
        w == 0 || h == 0 || ((sw as int) / (w as int) + 2) * ((sh as int) / (h as int) + 2)
            <= 16000000,
    ensures
        r@ == thumb_of(sw as int, sh as int, src@, w as int, h as int),
        r@.len() == 4 * (w as int) * (h as int),
{
    let buf = image::RgbaImage::from_raw(sw, sh, src.clone()).unwrap();
    image::imageops::thumbnail(&buf, w, h).into_raw()
}

/// Relies on image::RgbaImage::from_raw and image::imageops::resize with the
/// Catmull-Rom filter: a higher-quality resample to `w` x `h` RGBA pixels as
/// `4 * w * h` raw bytes, a pure function of the arguments; resize
/// accumulates in f32 and clamps its casts, so no size guard is needed.
#[verifier::external_body]
pub(crate) fn resample_quality(sw: u32, sh: u32, src: &Vec<u8>, w: u32, h: u32) -> (r: Vec<u8>)
    requires
        src@.len() == 4 * (sw as int) * (sh as int),
        (w as int) * (h as int) <= PIXEL_LIMIT,
    ensures
        r@ == resize_of(sw as int, sh as int, src@, w as int, h as int),
        r@.len() == 4 * (w as int) * (h as int),
{
    let buf = image::RgbaImage::from_raw(sw, sh, src.clone()).unwrap();
    image::imageops::resize(&buf, w, h, image::imageops::FilterType::CatmullRom).into_raw()
}

/// Whether the fast box filter is safe for this source-to-target shrink:
/// its per-output-pixel accumulator must not overflow.
pub open spec fn fast_safe(sw: int, sh: int, w: int, h: int) -> bool {
    w == 0 || h == 0 || (sw / w + 2) * (sh / h + 2) <= 16000000
}

/// The resampled RGBA tile the live preview composites: the fast box filter
/// when its accumulator is safe for the shrink ratio, the quality filter
/// otherwise.
pub open spec fn preview_tile(img: SourceImage, w: int, h: int) -> Seq<u8> {
    if fast_safe(img.width as int, img.height as int, w, h) {
        thumb_of(img.width as int, img.height as int, img.bytes@, w, h)
    } else {
        resize_of(img.width as int, img.height as int, img.bytes@, w, h)
    }
}

/// Resamples a source image for the live preview, choosing the filter by
/// `fast_safe`.
pub(crate) fn resample_for_preview(img: &SourceImage, w: u32, h: u32) -> (r: Vec<u8>)
    requires
        img.wf(),
        (w as int) * (h as int) <= PIXEL_LIMIT,
    ensures
        r@ == preview_tile(*img, w as int, h as int),
        r@.len() == 4 * (w as int) * (h as int),
{
    let safe = if w == 0 || h == 0 {
        true
    } else {
        let a = (img.width as u64) / (w as u64) + 2;
        let b = (img.height as u64) / (h as u64) + 2;
        proof {
            if a > 16000000 || b > 16000000 {
                assert((a as int) * (b as int) > 16000000) by (nonlinear_arith)
                    requires
                        a >= 2,
                        b >= 2,
                        a > 16000000 || b > 16000000,
                ;
            } else {
                assert((a as int) * (b as int) <= 16000000int * 16000000int) by (nonlinear_arith)
                    requires
                        a <= 16000000,
                        b <= 16000000,
                ;
            }
        }
        a <= 16000000 && b <= 16000000 && a * b <= 16000000
    };
    if safe {
        resample_fast(img.width, img.height, &img.bytes, w, h)
    } else {
        resample_quality(img.width, img.height, &img.bytes, w, h)
    }
}

} // verus!
