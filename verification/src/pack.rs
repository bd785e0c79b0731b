//! The rectangle-packing collaborator and the validity checks the layout
//! engine runs on its answers.

use vstd::prelude::*;

verus! {

/// A placement as the rectangle packer reports it: a position, the placed
/// footprint, and the index of the item it places.
#[derive(Debug, Clone, Copy, PartialEq, Eq, Structural)]
pub struct RawPlacement {
    pub x: usize,
    pub y: usize,
    pub w: usize,
    pub h: usize,
    pub idx: usize,
}

/// What crunch::pack returns for a container of the given size and the given
/// item footprints, each item carrying its index as its data: crunch's packer
/// is a pure function of its inputs (it sorts its items by a size priority
/// and walks a node tree, with no randomness), so the result is a function of
/// the container and the footprints alone. None stands for its Err outcome.
pub uninterp spec fn pack_of(w: int, h: int, sizes: Seq<(usize, usize)>) -> Option<
    Seq<RawPlacement>,
>;

/// Relies on crunch::pack, with rotation disabled on every item and the
/// item's position in `sizes` as its data. Ok means every item was placed;
/// Err (here None) that some item did not fit. The two requirements keep
/// crunch's internal arithmetic — container area in its node scores, item
/// area plus longest side in its sort priority — within usize.
#[verifier::external_body]
fn pack_rects(w: usize, h: usize, sizes: &Vec<(usize, usize)>) -> (r: Option<Vec<RawPlacement>>)
    requires
        w as int * h as int <= usize::MAX as int,
        forall|i: int|
            0 <= i < sizes@.len() ==> (#[trigger] sizes@[i]).0 as int * sizes@[i].1 as int + (
            if sizes@[i].0 >= sizes@[i].1 {
                sizes@[i].0 as int
            } else {
                sizes@[i].1 as int
            }) <= usize::MAX as int,
    ensures
        r is Some <==> pack_of(w as int, h as int, sizes@) is Some,
        r is Some ==> r.unwrap()@ == pack_of(w as int, h as int, sizes@).unwrap(),
{
    let items: Vec<crunch::Item<usize>> = sizes
        .iter()
        .enumerate()
        .map(|(i, s)| crunch::Item::new(i, s.0, s.1, crunch::Rotation::None))
        .collect();
    match crunch::pack(crunch::Rect::of_size(w, h), items) {
        Ok(packed) => Some(
            packed
                .into_iter()
                .map(|p| RawPlacement { x: p.rect.x, y: p.rect.y, w: p.rect.w, h: p.rect.h, idx: p.data })
                .collect(),
        ),
        Err(_) => None,
    }
}

/// The placement's rectangle lies inside a `w` x `h` canvas.
pub open spec fn placement_in_canvas(p: RawPlacement, w: int, h: int) -> bool {
    p.x + p.w <= w && p.y + p.h <= h
}

/// The two placements cover disjoint areas.
pub open spec fn placements_disjoint(a: RawPlacement, b: RawPlacement) -> bool {
    a.x + a.w <= b.x || b.x + b.w <= a.x || a.y + a.h <= b.y || b.y + b.h <= a.y
}

/// `raw` is a valid packing of the items with the given footprints into a
/// `w` x `h` canvas: one placement per item, each keeping its item's
/// footprint, each inside the canvas, no two overlapping and no two placing
/// the same item.
pub open spec fn packing_valid(
    w: int,
    h: int,
    sizes: Seq<(usize, usize)>,
    raw: Seq<RawPlacement>,
) -> bool {
    &&& raw.len() == sizes.len()
    &&& forall|j: int|
        0 <= j < raw.len() ==> (#[trigger] raw[j]).idx < sizes.len() && raw[j].w == sizes[raw[j].idx as int].0
            && raw[j].h == sizes[raw[j].idx as int].1 && placement_in_canvas(raw[j], w, h)
    &&& forall|j1: int, j2: int|
        0 <= j1 < raw.len() && 0 <= j2 < raw.len() && j1 != j2 ==> (#[trigger] raw[j1]).idx != (
        #[trigger] raw[j2]).idx
    &&& forall|j1: int, j2: int|
        0 <= j1 < raw.len() && 0 <= j2 < raw.len() && j1 != j2 ==> placements_disjoint(
            #[trigger] raw[j1],
            #[trigger] raw[j2],
        )
}

/// Checks that a packer's answer is a valid packing: the layout engine never
/// trusts the collaborator's geometry, it verifies it.
pub fn check_packing(w: u64, h: u64, sizes: &Vec<(usize, usize)>, raw: &Vec<RawPlacement>) -> (r: bool)
    requires
        w <= 65535,
        h <= 65535,
    ensures
        r == packing_valid(w as int, h as int, sizes@, raw@),
{
    let n = raw.len();
    if n != sizes.len() {
        return false;
    }
    let mut j: usize = 0;
    while j < n
        invariant
            0 <= j <= n,
            n == raw@.len() == sizes@.len(),
            w <= 65535,
            h <= 65535,
            forall|k: int|
                0 <= k < j ==> (#[trigger] raw@[k]).idx < n && raw@[k].w == sizes@[raw@[k].idx as int].0
                    && raw@[k].h == sizes@[raw@[k].idx as int].1 && placement_in_canvas(
                    raw@[k],
                    w as int,
                    h as int,
                ),
        decreases n - j,
    {
        let p = raw[j];
        if p.idx >= n {
            return false;
        }
        let s = sizes[p.idx];
        if p.w != s.0 || p.h != s.1 {
            return false;
        }
        if !(p.w as u64 <= w && p.x as u64 <= w - p.w as u64) {
            return false;
        }
        if !(p.h as u64 <= h && p.y as u64 <= h - p.h as u64) {
            return false;
        }
        j += 1;
    }
    let mut j1: usize = 0;
    while j1 < n
        invariant
            0 <= j1 <= n,
            n == raw@.len() == sizes@.len(),
            forall|k: int|
                0 <= k < n ==> (#[trigger] raw@[k]).idx < n && raw@[k].x + raw@[k].w <= 65535
                    && raw@[k].y + raw@[k].h <= 65535,
            forall|k1: int, k2: int|
                0 <= k1 < j1 && 0 <= k2 < n && k1 != k2 ==> (#[trigger] raw@[k1]).idx != (
                #[trigger] raw@[k2]).idx && placements_disjoint(raw@[k1], raw@[k2]),
        decreases n - j1,
    {
        let a = raw[j1];
        let mut j2: usize = 0;
        while j2 < n
            invariant
                0 <= j2 <= n,
                0 <= j1 < n,
                n == raw@.len(),
                a == raw@[j1 as int],
                forall|k: int|
                    0 <= k < n ==> (#[trigger] raw@[k]).idx < n && raw@[k].x + raw@[k].w <= 65535
                        && raw@[k].y + raw@[k].h <= 65535,
                forall|k2: int|
                    0 <= k2 < j2 && k2 != j1 ==> a.idx != (#[trigger] raw@[k2]).idx
                        && placements_disjoint(a, raw@[k2]),
            decreases n - j2,
        {
            if j2 != j1 {
                let b = raw[j2];
                if a.idx == b.idx {
                    return false;
                }
                let sep = a.x + a.w <= b.x || b.x + b.w <= a.x || a.y + a.h <= b.y || b.y + b.h
                    <= a.y;
                if !sep {
                    return false;
                }
            }
            j2 += 1;
        }
        j1 += 1;
    }
    true
}

/// The integer square root: the largest r with r * r <= x.
pub open spec fn sqrt_floor(x: nat) -> nat
    decreases x,
{
    if x == 0 {
        0
    } else {
        let p = sqrt_floor((x - 1) as nat);
        if (p + 1) * (p + 1) <= x {
            p + 1
        } else {
            p
        }
    }
}

proof fn lemma_sqrt_floor_bracket(x: nat)
    ensures
        sqrt_floor(x) * sqrt_floor(x) <= x,
        x < (sqrt_floor(x) + 1) * (sqrt_floor(x) + 1),
    decreases x,
{
    let s = sqrt_floor(x);
    if x == 0 {
        assert(s == 0);
        assert(s * s <= x) by (nonlinear_arith)
            requires
                s == 0,
                x == 0,
        ;
        assert(x < (s + 1) * (s + 1)) by (nonlinear_arith)
            requires
                s == 0,
                x == 0,
        ;
    } else {
        let y = (x - 1) as nat;
        lemma_sqrt_floor_bracket(y);
        let p = sqrt_floor(y);
        assert(p * p <= y);
        assert(y < (p + 1) * (p + 1));
        if (p + 1) * (p + 1) <= x {
            assert(s == p + 1);
            assert(s * s <= x);
            assert(x < (s + 1) * (s + 1)) by (nonlinear_arith)
                requires
                    s == p + 1,
                    x == y + 1,
                    y < (p + 1) * (p + 1),
            ;
        } else {
            assert(s == p);
            assert(s * s <= x);
            assert(x < (s + 1) * (s + 1));
        }
    }
}

proof fn lemma_sqrt_unique(x: nat, r: nat)
    requires
        r * r <= x,
        x < (r + 1) * (r + 1),
    ensures
        r == sqrt_floor(x),
{
    lemma_sqrt_floor_bracket(x);
    let s = sqrt_floor(x);
    if r < s {
        assert((r + 1) * (r + 1) <= s * s) by (nonlinear_arith)
            requires
                r + 1 <= s,
        ;
    }
    if s < r {
        assert((s + 1) * (s + 1) <= r * r) by (nonlinear_arith)
            requires
                s + 1 <= r,
        ;
    }
}

/// Computes the integer square root by bisection.
fn isqrt(x: u128) -> (r: u64)
    requires
        x < 0x40000000000000000,
    ensures
        r as nat == sqrt_floor(x as nat),
        r <= 0x200000000,
{
    let mut lo: u64 = 0;
    let mut hi: u64 = 0x200000000;
    proof {
        assert((0x200000000 as int) * (0x200000000 as int) == 0x40000000000000000int)
            by (nonlinear_arith);
    }
    while lo + 1 < hi
        invariant
            lo < hi <= 0x200000000,
            (lo as int) * (lo as int) <= x as int,
            (x as int) < (hi as int) * (hi as int),
        decreases hi - lo,
    {
        let mid = lo + (hi - lo) / 2;
        assert((mid as int) * (mid as int) < 0x40000000000000001int) by (nonlinear_arith)
            requires
                mid <= 0x200000000,
        ;
        if (mid as u128) * (mid as u128) <= x {
            lo = mid;
        } else {
            hi = mid;
        }
    }
    proof {
        assert(hi == lo + 1);
        lemma_sqrt_unique(x as nat, lo as nat);
    }
    lo
}

/// The total footprint area, saturating at 2^46 (a collage far beyond any
/// canvas the engine can solve).
pub open spec fn area_sum(sizes: Seq<(usize, usize)>) -> int
    decreases sizes.len(),
{
    if sizes.len() == 0 {
        0
    } else {
        let p = area_sum(sizes.drop_last());
        let t = p + sizes.last().0 * sizes.last().1;
        if t > 0x400000000000 {
            0x400000000000
        } else {
            t
        }
    }
}

proof fn lemma_area_sum_bounds(sizes: Seq<(usize, usize)>)
    ensures
        0 <= area_sum(sizes) <= 0x400000000000,
    decreases sizes.len(),
{
    if sizes.len() > 0 {
        lemma_area_sum_bounds(sizes.drop_last());
    }
}

/// Sums the footprint areas.
fn area_total(sizes: &Vec<(usize, usize)>) -> (r: u64)
    requires
        forall|i: int|
            0 <= i < sizes@.len() ==> (#[trigger] sizes@[i]).0 <= 65535 && sizes@[i].1 <= 65535,
    ensures
        r == area_sum(sizes@),
{
    let n = sizes.len();
    let mut acc: u64 = 0;
    let mut i: usize = 0;
    while i < n
        invariant
            0 <= i <= n,
            n == sizes@.len(),
            forall|k: int|
                0 <= k < sizes@.len() ==> (#[trigger] sizes@[k]).0 <= 65535 && sizes@[k].1
                    <= 65535,
            acc == area_sum(sizes@.take(i as int)),
            acc <= 0x400000000000,
        decreases n - i,
    {
        proof {
            assert(sizes@.take(i + 1).drop_last() =~= sizes@.take(i as int));
        }
        let s = sizes[i];
        assert((s.0 as int) * (s.1 as int) <= 65535 * 65535) by (nonlinear_arith)
            requires
                s.0 <= 65535,
                s.1 <= 65535,
        ;
        let t = acc + (s.0 as u64) * (s.1 as u64);
        if t > 0x400000000000 {
            acc = 0x400000000000;
        } else {
            acc = t;
        }
        i += 1;
    }
    proof {
        assert(sizes@.take(n as int) =~= sizes@);
    }
    acc
}

/// The canvas width candidate at step `n` of the growth search: the seed
/// width grown by one percent of itself per step.
pub open spec fn step_width(w0: int, n: int) -> int {
    w0 + (w0 * n) / 100
}

/// The seed canvas width: the square root of the total footprint area
/// divided by the aspect divisor num/den, so that a canvas of that width and
/// of height width*num/den has about the total footprint area.
pub open spec fn seed_width(sizes: Seq<(usize, usize)>, num: int, den: int) -> int {
    sqrt_floor(((area_sum(sizes) * den) / num) as nat) as int
}

/// The first valid packing the growth search finds from step `n` on. Each
/// step offers the packer a canvas of the step's width and the matching
/// height; a failed or invalid answer grows the canvas by another percent of
/// the seed. The search gives up after 10000 steps, or as soon as a candidate
/// side exceeds 65535 pixels: growth is monotone, so no later step could fit
/// a limit either.
pub open spec fn search_from(
    sizes: Seq<(usize, usize)>,
    num: int,
    den: int,
    w0: int,
    n: nat,
) -> Option<(int, int, Seq<RawPlacement>)>
    decreases 10000 - n,
{
    if n >= 10000 {
        None
    } else {
        let w = step_width(w0, n as int);
        let h = (w * num) / den;
        if w > 65535 || h > 65535 {
            None
        } else {
            match pack_of(w, h, sizes) {
                Some(raw) => {
                    if packing_valid(w, h, sizes, raw) {
                        Some((w, h, raw))
                    } else {
                        search_from(sizes, num, den, w0, (n + 1) as nat)
                    }
                },
                None => search_from(sizes, num, den, w0, (n + 1) as nat),
            }
        }
    }
}

/// The canvas the growth search settles on for the given footprints and
/// aspect divisor, with the packer's placements, or None when the search
/// gives up.
pub open spec fn search_spec(sizes: Seq<(usize, usize)>, num: int, den: int) -> Option<
    (int, int, Seq<RawPlacement>),
> {
    search_from(sizes, num, den, seed_width(sizes, num, den), 0)
}

/// Runs the canvas growth search: seeds the width from the total footprint
/// area, and offers the packer linearly growing canvases until one holds a
/// valid packing of every item.
pub fn search_canvas(sizes: &Vec<(usize, usize)>, num: u64, den: u64) -> (r: Option<
    (u64, u64, Vec<RawPlacement>),
>)
    requires
        1 <= num <= 1000000,
        1 <= den <= 1000000,
        forall|i: int|
            0 <= i < sizes@.len() ==> (#[trigger] sizes@[i]).0 <= 65535 && sizes@[i].1 <= 65535,
    ensures
        match r {
            Some(t) => search_spec(sizes@, num as int, den as int) == Some(
                (t.0 as int, t.1 as int, t.2@),
            ) && t.0 <= 65535 && t.1 <= 65535 && packing_valid(
                t.0 as int,
                t.1 as int,
                sizes@,
                t.2@,
            ),
            None => search_spec(sizes@, num as int, den as int) is None,
        },
{
    let area = area_total(sizes);
    proof {
        lemma_area_sum_bounds(sizes@);
        assert((area as int) * (den as int) < 0x40000000000000000int) by (nonlinear_arith)
            requires
                area <= 0x400000000000,
                den <= 1000000,
        ;
    }
    let prod = (area as u128) * (den as u128);
    let q = prod / (num as u128);
    let w0 = isqrt(q);
    let ghost w0g = seed_width(sizes@, num as int, den as int);
    proof {
        assert(w0 as int == w0g);
    }
    let mut n: u32 = 0;
    while n < 10000
        invariant
            0 <= n <= 10000,
            w0 <= 0x200000000,
            1 <= num <= 1000000,
            1 <= den <= 1000000,
            w0 as int == w0g,
            w0g == seed_width(sizes@, num as int, den as int),
            forall|i: int|
                0 <= i < sizes@.len() ==> (#[trigger] sizes@[i]).0 <= 65535 && sizes@[i].1
                    <= 65535,
            search_from(sizes@, num as int, den as int, w0g, 0) == search_from(
                sizes@,
                num as int,
                den as int,
                w0g,
                n as nat,
            ),
        decreases 10000 - n,
    {
        proof {
            assert((w0 as int) * (n as int) <= 0x200000000int * 10000int) by (nonlinear_arith)
                requires
                    w0 <= 0x200000000,
                    n <= 10000,
            ;
        }
        let w = w0 + w0 * (n as u64) / 100;
        if w > 65535 {
            proof {
                assert(search_from(sizes@, num as int, den as int, w0g, n as nat) is None);
            }
            return None;
        }
        proof {
            assert((w as int) * (num as int) <= 65535int * 1000000int) by (nonlinear_arith)
                requires
                    w <= 65535,
                    num <= 1000000,
            ;
        }
        let h = w * num / den;
        if h > 65535 {
            proof {
                assert(search_from(sizes@, num as int, den as int, w0g, n as nat) is None);
            }
            return None;
        }
        proof {
            assert(usize::MAX >= 0xffffffff);
            assert((w as int) * (h as int) <= 65535int * 65535int) by (nonlinear_arith)
                requires
                    w <= 65535,
                    h <= 65535,
            ;
            assert(forall|i: int|
                0 <= i < sizes@.len() ==> (#[trigger] sizes@[i]).0 as int * sizes@[i].1 as int + (
                if sizes@[i].0 >= sizes@[i].1 {
                    sizes@[i].0 as int
                } else {
                    sizes@[i].1 as int
                }) <= 0xffffffff) by {
                assert forall|i: int| 0 <= i < sizes@.len() implies (#[trigger] sizes@[i]).0 as int
                    * sizes@[i].1 as int + (if sizes@[i].0 >= sizes@[i].1 {
                    sizes@[i].0 as int
                } else {
                    sizes@[i].1 as int
                }) <= 0xffffffff by {
                    assert(sizes@[i].0 as int * sizes@[i].1 as int <= 65535int * 65535int)
                        by (nonlinear_arith)
                        requires
                            sizes@[i].0 <= 65535,
                            sizes@[i].1 <= 65535,
                    ;
                }
            }
        }
        match pack_rects(w as usize, h as usize, sizes) {
            Some(raw) => {
                if check_packing(w, h, sizes, &raw) {
                    return Some((w, h, raw));
                }
            },
            None => {},
        }
        n += 1;
    }
    None
}

/// Some placement among the first `j` of `raw` places item `k`.
pub open spec fn has_placement_upto(raw: Seq<RawPlacement>, j: int, k: int) -> bool {
    exists|j2: int| 0 <= j2 < j && j2 < raw.len() && (#[trigger] raw[j2]).idx == k
}

/// Some placement in `raw` places item `k`.
pub open spec fn has_placement(raw: Seq<RawPlacement>, k: int) -> bool {
    has_placement_upto(raw, raw.len() as int, k)
}

/// The placement in `raw` that places item `i`.
pub open spec fn rect_for(raw: Seq<RawPlacement>, i: int) -> RawPlacement {
    raw[choose|j: int| 0 <= j < raw.len() && raw[j].idx == i]
}

/// Placement indices that are pairwise distinct and all below the placement
/// count cover every item index: there are exactly as many of them as items.
pub proof fn lemma_indices_cover(raw: Seq<RawPlacement>, n: int)
    requires
        raw.len() == n,
        forall|j: int| 0 <= j < n ==> (#[trigger] raw[j]).idx < n,
        forall|j1: int, j2: int|
            0 <= j1 < n && 0 <= j2 < n && j1 != j2 ==> (#[trigger] raw[j1]).idx != (
            #[trigger] raw[j2]).idx,
    ensures
        forall|k: int| 0 <= k < n ==> #[trigger] has_placement(raw, k),
{
    let idxs = Seq::new(raw.len(), |j: int| raw[j].idx as int);
    assert(idxs.no_duplicates());
    idxs.unique_seq_to_set();
    let s = idxs.to_set();
    let r = vstd::set_lib::set_int_range(0, n);
    vstd::set_lib::lemma_int_range(0, n);
    assert(s.subset_of(r));
    vstd::set_lib::lemma_len_subset(s, r);
    assert forall|k: int| 0 <= k < n implies #[trigger] has_placement(raw, k) by {
        if !s.contains(k) {
            s.lemma_subset_not_in_lt(r, k);
            assert(false);
        }
        let j = choose|j: int| 0 <= j < idxs.len() && idxs[j] == k;
        assert(raw[j].idx == k);
    }
}

/// Reorders a valid packing's placements into item order: the result's slot
/// `i` holds the placement of item `i`.
pub fn order_placements(n: usize, raw: &Vec<RawPlacement>) -> (r: Vec<RawPlacement>)
    requires
        raw@.len() == n,
        forall|j: int| 0 <= j < n ==> (#[trigger] raw@[j]).idx < n,
        forall|j1: int, j2: int|
            0 <= j1 < n && 0 <= j2 < n && j1 != j2 ==> (#[trigger] raw@[j1]).idx != (
            #[trigger] raw@[j2]).idx,
    ensures
        r@.len() == n,
        forall|i: int| 0 <= i < n ==> (#[trigger] r@[i]) == rect_for(raw@, i) && r@[i].idx == i,
{
    let mut slots: Vec<Option<RawPlacement>> = Vec::new();
    let mut k: usize = 0;
    while k < n
        invariant
            0 <= k <= n,
            slots@.len() == k,
            forall|t: int| 0 <= t < k ==> (#[trigger] slots@[t]) is None,
        decreases n - k,
    {
        slots.push(None);
        k += 1;
    }
    let mut j: usize = 0;
    while j < n
        invariant
            0 <= j <= n,
            n == raw@.len(),
            slots@.len() == n,
            forall|j2: int| 0 <= j2 < n ==> (#[trigger] raw@[j2]).idx < n,
            forall|j1: int, j2: int|
                0 <= j1 < n && 0 <= j2 < n && j1 != j2 ==> (#[trigger] raw@[j1]).idx != (
                #[trigger] raw@[j2]).idx,
            forall|j2: int|
                0 <= j2 < j ==> slots@[(#[trigger] raw@[j2]).idx as int] == Some(raw@[j2]),
            forall|t: int|
                0 <= t < n && (#[trigger] slots@[t]) is Some ==> has_placement_upto(raw@, j as int, t),
        decreases n - j,
    {
        let p = raw[j];
        slots.set(p.idx, Some(p));
        j += 1;
    }
    proof {
        lemma_indices_cover(raw@, n as int);
    }
    let mut r: Vec<RawPlacement> = Vec::new();
    let mut i: usize = 0;
    while i < n
        invariant
            0 <= i <= n,
            n == raw@.len(),
            slots@.len() == n,
            forall|j2: int| 0 <= j2 < n ==> (#[trigger] raw@[j2]).idx < n,
            forall|j1: int, j2: int|
                0 <= j1 < n && 0 <= j2 < n && j1 != j2 ==> (#[trigger] raw@[j1]).idx != (
                #[trigger] raw@[j2]).idx,
            forall|j2: int|
                0 <= j2 < n ==> slots@[(#[trigger] raw@[j2]).idx as int] == Some(raw@[j2]),
            forall|k2: int| 0 <= k2 < n ==> #[trigger] has_placement(raw@, k2),
            r@.len() == i,
            forall|t: int|
                0 <= t < i ==> (#[trigger] r@[t]) == rect_for(raw@, t) && r@[t].idx == t,
        decreases n - i,
    {
        proof {
            assert(has_placement(raw@, i as int));
            let jw = choose|j2: int| 0 <= j2 < raw@.len() && (#[trigger] raw@[j2]).idx == i as int;
            assert(slots@[i as int] == Some(raw@[jw]));
        }
        match slots[i] {
            Some(p) => {
                proof {
                    let jc = choose|j2: int| 0 <= j2 < raw@.len() && raw@[j2].idx == i as int;
                    assert(raw@[jc].idx == i as int);
                    assert(rect_for(raw@, i as int) == raw@[jc]);
                }
                r.push(p);
            },
            None => {
                proof {
                    assert(false);
                }
                r.push(RawPlacement { x: 0, y: 0, w: 0, h: 0, idx: 0 });
            },
        }
        i += 1;
    }
    r
}

/// Any canvas the growth search returns carries a valid packing of the
/// footprints, its height is the width scaled by the aspect divisor (rounded
/// down), and both sides are within the canvas limit.
pub proof fn lemma_search_from_valid(
    sizes: Seq<(usize, usize)>,
    num: int,
    den: int,
    w0: int,
    n: nat,
)
    requires
        w0 >= 0,
        num >= 1,
        den >= 1,
    ensures
        match search_from(sizes, num, den, w0, n) {
            Some(t) => packing_valid(t.0, t.1, sizes, t.2) && t.1 == (t.0 * num) / den && 0 <= t.0
                <= 65535 && 0 <= t.1 <= 65535,
            None => true,
        },
    decreases 10000 - n,
{
    if n < 10000 {
        let w = step_width(w0, n as int);
        let h = (w * num) / den;
        assert(w >= 0) by (nonlinear_arith)
            requires
                w0 >= 0,
                n >= 0,
                w == w0 + (w0 * n) / 100,
        ;
        assert(h >= 0) by (nonlinear_arith)
            requires
                w >= 0,
                num >= 1,
                den >= 1,
                h == (w * num) / den,
        ;
        if w > 65535 || h > 65535 {
        } else {
            match pack_of(w, h, sizes) {
                Some(raw) => {
                    if !packing_valid(w, h, sizes, raw) {
                        lemma_search_from_valid(sizes, num, den, w0, (n + 1) as nat);
                    }
                },
                None => {
                    lemma_search_from_valid(sizes, num, den, w0, (n + 1) as nat);
                },
            }
        }
    }
}

/// The search's result, when there is one, is a valid packing on a canvas
/// whose height is its width scaled by the aspect divisor.
pub proof fn lemma_search_spec_valid(sizes: Seq<(usize, usize)>, num: int, den: int)
    requires
        num >= 1,
        den >= 1,
    ensures
        match search_spec(sizes, num, den) {
            Some(t) => packing_valid(t.0, t.1, sizes, t.2) && t.1 == (t.0 * num) / den && 0 <= t.0
                <= 65535 && 0 <= t.1 <= 65535,
            None => true,
        },
{
    lemma_search_from_valid(sizes, num, den, seed_width(sizes, num, den), 0);
}

/// In a valid packing, the placement of item `i` places exactly item `i`,
/// keeps its footprint, and lies inside the canvas.
pub proof fn lemma_rect_for_props(
    w: int,
    h: int,
    sizes: Seq<(usize, usize)>,
    raw: Seq<RawPlacement>,
    i: int,
)
    requires
        packing_valid(w, h, sizes, raw),
        0 <= i < sizes.len(),
    ensures
        rect_for(raw, i).idx == i,
        rect_for(raw, i).w == sizes[i].0,
        rect_for(raw, i).h == sizes[i].1,
        rect_for(raw, i).x + rect_for(raw, i).w <= w,
        rect_for(raw, i).y + rect_for(raw, i).h <= h,
{
    lemma_indices_cover(raw, raw.len() as int);
    assert(has_placement(raw, i));
    let j = choose|j: int| 0 <= j < raw.len() && raw[j].idx == i;
    assert(rect_for(raw, i) == raw[j]);
}

/// In a valid packing, the placements of two different items are disjoint.
pub proof fn lemma_rect_for_disjoint(
    w: int,
    h: int,
    sizes: Seq<(usize, usize)>,
    raw: Seq<RawPlacement>,
    i1: int,
    i2: int,
)
    requires
        packing_valid(w, h, sizes, raw),
        0 <= i1 < sizes.len(),
        0 <= i2 < sizes.len(),
        i1 != i2,
    ensures
        placements_disjoint(rect_for(raw, i1), rect_for(raw, i2)),
{
    lemma_rect_for_props(w, h, sizes, raw, i1);
    lemma_rect_for_props(w, h, sizes, raw, i2);
    lemma_indices_cover(raw, raw.len() as int);
    assert(has_placement(raw, i1));
    assert(has_placement(raw, i2));
    let j1 = choose|j: int| 0 <= j < raw.len() && raw[j].idx == i1;
    let j2 = choose|j: int| 0 <= j < raw.len() && raw[j].idx == i2;
    assert(rect_for(raw, i1) == raw[j1]);
    assert(rect_for(raw, i2) == raw[j2]);
    assert(raw[j1].idx == i1 && raw[j2].idx == i2);
    assert(j1 != j2);
    assert(placements_disjoint(raw[j1], raw[j2]));
}

} // verus!
