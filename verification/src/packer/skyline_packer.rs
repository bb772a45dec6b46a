//! Skyline free-space tracker, the primary packing strategy.
//!
//! Free space is represented by its lower boundary: a list of horizontal
//! segments at increasing `x` that spans the whole atlas width with no gaps
//! and no overlaps.  Each segment's `y` is the height of the atlas floor
//! already filled over the segment's span.  A placement raises the skyline
//! over the placed rectangle's span; every rectangle ever placed stays below
//! the skyline, which is what keeps placements disjoint.

use vstd::prelude::*;
use crate::frame::Frame;
use crate::packer::Packer;
use crate::rect::Rect;
use crate::texture_packer_config::TexturePackerConfig;

verus! {

/// One horizontal segment of the skyline: the floor over `[x, x + w)` is
/// filled up to height `y`.
#[derive(Copy, Clone)]
pub struct Skyline {
    /// Start of the segment's horizontal span.
    pub x: u32,
    /// Height of the filled floor over the span.
    pub y: u32,
    /// Width of the span.
    pub w: u32,
}

impl Skyline {
    /// Leftmost column of the span.
    #[inline(always)]
    pub fn left(&self) -> (r: u32)
        ensures
            r == self.x,
    {
        self.x
    }

    /// Rightmost column of the span, inclusive.
    #[inline(always)]
    pub fn right(&self) -> (r: u32)
        requires
            1 <= self.x + self.w <= u32::MAX,
        ensures
            r == self.x + self.w - 1,
    {
        self.x + self.w - 1
    }
}

/// The segment's span shares at least one column with `[x0, x1)`.
pub open spec fn seg_overlaps(seg: Skyline, x0: int, x1: int) -> bool {
    seg.x < x1 && x0 < seg.x + seg.w
}

/// Highest segment height among the segments whose span shares a column with
/// `[x0, x1)`; `0` when no segment does.
pub open spec fn span_max_y(s: Seq<Skyline>, x0: int, x1: int) -> int
    decreases s.len(),
{
    if s.len() == 0 {
        0
    } else {
        let rest = span_max_y(s.drop_last(), x0, x1);
        if seg_overlaps(s.last(), x0, x1) && s.last().y > rest {
            s.last().y as int
        } else {
            rest
        }
    }
}

/// Every segment begins exactly where its predecessor ends.
pub open spec fn contiguous(s: Seq<Skyline>) -> bool {
    forall|i: int| 0 <= i < s.len() - 1 ==> #[trigger] s[i + 1].x == s[i].x + s[i].w
}

/// The segments partition `[0, max_w)` left to right, every span is
/// non-empty, and no segment's height exceeds `max_h`.
pub open spec fn wf_seq(s: Seq<Skyline>, max_w: int, max_h: int) -> bool {
    &&& s.len() >= 1
    &&& s[0].x == 0
    &&& contiguous(s)
    &&& forall|i: int| 0 <= i < s.len() ==> 1 <= #[trigger] s[i].w
    &&& forall|i: int| 0 <= i < s.len() ==> #[trigger] s[i].y <= max_h
    &&& s[s.len() - 1].x + s[s.len() - 1].w == max_w
}

/// `(rw, rh)` is `(w, h)` itself, or — when rotation is allowed — the pair
/// turned by 90 degrees.
pub open spec fn oriented_pair(allow_rotation: bool, w: int, h: int, rw: int, rh: int) -> bool {
    (rw == w && rh == h) || (allow_rotation && rw == h && rh == w)
}

/// No fitting placement of any allowed orientation ends above bottom edge
/// `b` on the skyline `s`.
pub open spec fn min_bottom_on(
    s: Seq<Skyline>,
    max_w: int,
    max_h: int,
    allow_rotation: bool,
    w: int,
    h: int,
    b: int,
) -> bool {
    forall|j: int, sw: int, sh: int|
        oriented_pair(allow_rotation, w, h, sw, sh) && #[trigger] fits_at(s, max_w, max_h, j, sw, sh)
            ==> cand_bottom(s, j, sw, sh) >= b
}

/// A `w` by `h` placement is accepted on the skyline `s`: some allowed
/// orientation fits and the lowest achievable bottom edge stays strictly
/// above the atlas's last pixel row.
pub open spec fn can_place_on(
    s: Seq<Skyline>,
    max_w: int,
    max_h: int,
    allow_rotation: bool,
    w: int,
    h: int,
) -> bool {
    exists|i: int, rw: int, rh: int|
        {
            &&& oriented_pair(allow_rotation, w, h, rw, rh)
            &&& #[trigger] fits_at(s, max_w, max_h, i, rw, rh)
            &&& cand_bottom(s, i, rw, rh) + 1 <= max_h - 1
            &&& min_bottom_on(s, max_w, max_h, allow_rotation, w, h, cand_bottom(s, i, rw, rh))
        }
}

/// A `w` by `h` rectangle laid out from the left edge of segment `i` stays
/// inside the atlas border when dropped onto the skyline.
pub open spec fn fits_at(s: Seq<Skyline>, max_w: int, max_h: int, i: int, w: int, h: int) -> bool {
    &&& 0 <= i < s.len()
    &&& s[i].x + w <= max_w
    &&& span_max_y(s, s[i].x as int, s[i].x + w) + h <= max_h
}

/// Inclusive bottom edge of the placement that starts at segment `i`.
pub open spec fn cand_bottom(s: Seq<Skyline>, i: int, w: int, h: int) -> int {
    span_max_y(s, s[i].x as int, s[i].x + w) + h - 1
}

/// Column `c` lies in the segment's span.
pub open spec fn col_in_seg(seg: Skyline, c: int) -> bool {
    seg.x <= c < seg.x + seg.w
}

/// The segment list is minimal: no two adjacent segments share a height.
pub open spec fn adjacent_heights_differ(s: Seq<Skyline>) -> bool {
    forall|t: int| 0 <= t < s.len() - 1 ==> s[t].y != (#[trigger] s[t + 1]).y
}

/// After a placement of `rect` is folded into a skyline `s`, each segment of
/// the new skyline is either the raised segment over `rect`'s span, or a
/// piece of an old segment that lies outside `rect`'s span.
pub open spec fn split_seg_ok(s: Seq<Skyline>, rect: Rect, seg: Skyline) -> bool {
    ||| (seg.x == rect.x && seg.y == rect.y + rect.h && seg.w == rect.w)
    ||| (exists|j: int|
        0 <= j < s.len() && (#[trigger] s[j]).y == seg.y && s[j].x <= seg.x && seg.x + seg.w
            <= s[j].x + s[j].w && !seg_overlaps(seg, rect.x as int, rect.x + rect.w))
}

/// The span maximum never goes below any overlapping segment's height.
pub proof fn lemma_span_max_y_ge(s: Seq<Skyline>, x0: int, x1: int, i: int)
    requires
        0 <= i < s.len(),
        seg_overlaps(s[i], x0, x1),
    ensures
        s[i].y <= span_max_y(s, x0, x1),
    decreases s.len(),
{
    if i < s.len() - 1 {
        lemma_span_max_y_ge(s.drop_last(), x0, x1, i);
    }
}

/// The span maximum is never negative.
pub proof fn lemma_span_max_y_nonneg(s: Seq<Skyline>, x0: int, x1: int)
    ensures
        0 <= span_max_y(s, x0, x1),
    decreases s.len(),
{
    if s.len() > 0 {
        lemma_span_max_y_nonneg(s.drop_last(), x0, x1);
    }
}

/// With no overlapping segment the span maximum is zero.
pub proof fn lemma_span_max_y_none(s: Seq<Skyline>, x0: int, x1: int)
    requires
        forall|i: int| 0 <= i < s.len() ==> !seg_overlaps(#[trigger] s[i], x0, x1),
    ensures
        span_max_y(s, x0, x1) == 0,
    decreases s.len(),
{
    if s.len() > 0 {
        assert(forall|i: int|
            0 <= i < s.drop_last().len() ==> !seg_overlaps(#[trigger] s.drop_last()[i], x0, x1));
        lemma_span_max_y_none(s.drop_last(), x0, x1);
    }
}

/// The span maximum stays below any bound that all segment heights obey.
pub proof fn lemma_span_max_y_ub(s: Seq<Skyline>, x0: int, x1: int, bound: int)
    requires
        0 <= bound,
        forall|i: int| 0 <= i < s.len() ==> #[trigger] s[i].y <= bound,
    ensures
        span_max_y(s, x0, x1) <= bound,
    decreases s.len(),
{
    if s.len() > 0 {
        assert(forall|i: int| 0 <= i < s.drop_last().len() ==> #[trigger] s.drop_last()[i].y <= bound);
        lemma_span_max_y_ub(s.drop_last(), x0, x1, bound);
    }
}

/// Splitting the span at `xm` splits the maximum.
pub proof fn lemma_span_max_y_split(s: Seq<Skyline>, x0: int, xm: int, x1: int)
    requires
        x0 <= xm <= x1,
        forall|i: int| 0 <= i < s.len() ==> 1 <= #[trigger] s[i].w,
    ensures
        span_max_y(s, x0, x1) == if span_max_y(s, x0, xm) > span_max_y(s, xm, x1) {
            span_max_y(s, x0, xm)
        } else {
            span_max_y(s, xm, x1)
        },
    decreases s.len(),
{
    if s.len() > 0 {
        assert(forall|i: int| 0 <= i < s.drop_last().len() ==> 1 <= #[trigger] s.drop_last()[i].w);
        lemma_span_max_y_split(s.drop_last(), x0, xm, x1);
        let seg = s.last();
        assert(seg_overlaps(seg, x0, x1) <==> (seg_overlaps(seg, x0, xm) || seg_overlaps(
            seg,
            xm,
            x1,
        )));
        lemma_span_max_y_nonneg(s.drop_last(), x0, xm);
        lemma_span_max_y_nonneg(s.drop_last(), xm, x1);
    }
}

/// In a contiguous list the segments keep their order: an earlier segment
/// ends no later than a later one begins.
pub proof fn lemma_seg_order(s: Seq<Skyline>, k: int, i: int)
    requires
        contiguous(s),
        0 <= k < i < s.len(),
    ensures
        s[k].x + s[k].w <= s[i].x,
    decreases i - k,
{
    if k + 1 < i {
        lemma_seg_order(s, k + 1, i);
    }
    assert(s[k + 1].x == s[k].x + s[k].w);
}

/// Over a non-empty sub-span of a single segment the maximum is exactly that
/// segment's height.
pub proof fn lemma_span_single(s: Seq<Skyline>, i: int, a: int, b: int)
    requires
        contiguous(s),
        0 <= i < s.len(),
        s[i].x <= a < b,
        b <= s[i].x + s[i].w,
    ensures
        span_max_y(s, a, b) == s[i].y,
{
    assert forall|j: int| 0 <= j < s.len() && j != i implies !seg_overlaps(#[trigger] s[j], a, b) by {
        if j < i {
            lemma_seg_order(s, j, i);
        } else {
            lemma_seg_order(s, i, j);
        }
    }
    lemma_span_only(s, i, a, b);
}

/// When exactly one segment overlaps the span, the maximum is its height.
proof fn lemma_span_only(s: Seq<Skyline>, i: int, a: int, b: int)
    requires
        0 <= i < s.len(),
        seg_overlaps(s[i], a, b),
        forall|j: int| 0 <= j < s.len() && j != i ==> !seg_overlaps(#[trigger] s[j], a, b),
    ensures
        span_max_y(s, a, b) == s[i].y,
    decreases s.len(),
{
    if i == s.len() - 1 {
        assert(forall|j: int|
            0 <= j < s.drop_last().len() ==> !seg_overlaps(#[trigger] s.drop_last()[j], a, b));
        lemma_span_max_y_none(s.drop_last(), a, b);
    } else {
        assert(forall|j: int|
            0 <= j < s.drop_last().len() && j != i ==> !seg_overlaps(
                #[trigger] s.drop_last()[j],
                a,
                b,
            ));
        lemma_span_only(s.drop_last(), i, a, b);
    }
}

/// Skyline-based free-space tracker for one atlas page.
pub struct SkylinePacker {
    /// Configuration the tracker was built from; never changes afterwards.
    pub config: TexturePackerConfig,
    /// The atlas border `{0, 0, max_width, max_height}`.
    pub border: Rect,
    /// The skylines, sorted by their `x` position.
    pub skylines: Vec<Skyline>,
    /// Every rectangle this tracker has ever handed out.
    pub placed: Ghost<Seq<Rect>>,
}

impl SkylinePacker {
    /// Atlas width as a mathematical integer.
    pub open spec fn spec_max_w(self) -> int {
        self.config.max_width as int
    }

    /// Atlas height as a mathematical integer.
    pub open spec fn spec_max_h(self) -> int {
        self.config.max_height as int
    }

    /// The configuration this tracker was built from.
    pub open spec fn spec_config(self) -> TexturePackerConfig {
        self.config
    }

    /// The skyline segments.
    pub open spec fn skyline_seq(self) -> Seq<Skyline> {
        self.skylines@
    }

    /// The rectangles this tracker has handed out, in order.
    pub open spec fn placed_seq(self) -> Seq<Rect> {
        self.placed@
    }

    /// `(rw, rh)` is an orientation of the request `(w, h)` that this
    /// tracker may use: the request itself, or — when rotation is allowed —
    /// the request turned by 90 degrees.
    pub open spec fn oriented(self, w: int, h: int, rw: int, rh: int) -> bool {
        oriented_pair(self.config.allow_rotation, w, h, rw, rh)
    }

    /// Some orientation of the request fits at some segment.
    pub open spec fn some_fit(self, w: int, h: int) -> bool {
        exists|i: int, rw: int, rh: int|
            self.oriented(w, h, rw, rh) && fits_at(
                self.skylines@,
                self.spec_max_w(),
                self.spec_max_h(),
                i,
                rw,
                rh,
            )
    }

    /// No fitting placement of any orientation ends above bottom edge `b`.
    pub open spec fn is_min_bottom(self, w: int, h: int, b: int) -> bool {
        min_bottom_on(
            self.skylines@,
            self.spec_max_w(),
            self.spec_max_h(),
            self.config.allow_rotation,
            w,
            h,
            b,
        )
    }

    /// The tracker commits a `w` by `h` placement exactly when some
    /// orientation fits and the lowest achievable bottom edge stays strictly
    /// above the atlas's last pixel row.
    pub open spec fn spec_can_place(self, w: int, h: int) -> bool {
        can_place_on(
            self.skylines@,
            self.spec_max_w(),
            self.spec_max_h(),
            self.config.allow_rotation,
            w,
            h,
        )
    }

    /// The tracker accepts a texture of the given size, once the size has
    /// been inflated by padding and extrusion.
    pub open spec fn spec_can_pack(self, tw: int, th: int) -> bool {
        self.spec_can_place(
            tw + self.config.spec_inflation(),
            th + self.config.spec_inflation(),
        )
    }

    /// Every placed rectangle has real area, lies inside the border, stays
    /// below the skyline, and placed rectangles are pairwise disjoint.
    pub open spec fn placed_ok(self) -> bool {
        let p = self.placed@;
        let s = self.skylines@;
        &&& forall|k: int|
            0 <= k < p.len() ==> {
                &&& 1 <= (#[trigger] p[k]).w
                &&& 1 <= p[k].h
                &&& p[k].x + p[k].w <= self.spec_max_w()
                &&& p[k].y + p[k].h <= self.spec_max_h() - 1
            }
        &&& forall|k1: int, k2: int|
            0 <= k1 < p.len() && 0 <= k2 < p.len() && k1 != k2 ==> (#[trigger] p[k1]).spec_disjoint(
                #[trigger] p[k2],
            )
        &&& forall|k: int, i: int|
            0 <= k < p.len() && 0 <= i < s.len() && seg_overlaps(
                #[trigger] s[i],
                (#[trigger] p[k]).x as int,
                p[k].x + p[k].w,
            ) ==> p[k].y + p[k].h <= s[i].y
    }

    /// Create a tracker whose free space is the whole atlas.
    pub fn new(config: TexturePackerConfig) -> (r: Self)
        requires
            config.config_ok(),
        ensures
            r.wf(),
            r.spec_config() == config,
            r.placed_seq() =~= Seq::<Rect>::empty(),
            r.skyline_seq().len() == 1,
            r.skyline_seq()[0].x == 0,
            r.skyline_seq()[0].y == 0,
            r.skyline_seq()[0].w == config.max_width,
    {
        let mut skylines = Vec::new();
        skylines.push(Skyline { x: 0, y: 0, w: config.max_width });

        SkylinePacker {
            config,
            border: Rect::new(0, 0, config.max_width, config.max_height),
            skylines,
            placed: Ghost(Seq::empty()),
        }
    }

    /// Return the placement rectangle if a `w` by `h` rectangle can sit on
    /// the skyline starting at segment `i`.
    fn can_put(&self, i: usize, w: u32, h: u32) -> (r: Option<Rect>)
        requires
            self.wf(),
            i < self.skylines@.len(),
            1 <= w,
            1 <= h,
            w + self.spec_max_w() <= u32::MAX,
            h + self.spec_max_h() <= u32::MAX,
        ensures
            r.is_some() <==> fits_at(
                self.skylines@,
                self.spec_max_w(),
                self.spec_max_h(),
                i as int,
                w as int,
                h as int,
            ),
            r matches Some(rect) ==> rect == (Rect {
                x: self.skylines@[i as int].x,
                y: span_max_y(
                    self.skylines@,
                    self.skylines@[i as int].x as int,
                    self.skylines@[i as int].x + w,
                ) as u32,
                w,
                h,
            }),
    {
        let ghost s = self.skylines@;
        let ghost max_w = self.spec_max_w();
        let ghost max_h = self.spec_max_h();
        let ghost x0 = s[i as int].x as int;
        let mut rect = Rect::new(self.skylines[i].x, 0, w, h);
        let mut width_left = rect.w;
        let mut j = i;
        let n = self.skylines.len();
        proof {
            assert forall|k: int| 0 <= k < s.len() implies !seg_overlaps(#[trigger] s[k], x0, x0) by {
                if k < i as int {
                    lemma_seg_order(s, k, i as int);
                } else if k > i as int {
                    lemma_seg_order(s, i as int, k);
                }
            }
            lemma_span_max_y_none(s, x0, x0);
        }
        loop
            invariant
                self.wf(),
                s == self.skylines@,
                n == s.len(),
                max_w == self.spec_max_w(),
                max_h == self.spec_max_h(),
                x0 == s[i as int].x as int,
                i <= j < s.len(),
                1 <= width_left <= w,
                rect.x == s[i as int].x,
                rect.w == w,
                rect.h == h,
                1 <= w,
                1 <= h,
                w + max_w <= u32::MAX,
                h + max_h <= u32::MAX,
                s[j as int].x == x0 + w - width_left,
                rect.y as int == span_max_y(s, x0, s[j as int].x as int),
            decreases s.len() - j,
        {
            let ghost covered = s[j as int].x as int;
            if rect.y < self.skylines[j].y {
                rect.y = self.skylines[j].y;
            }
            proof {
                let m = if covered + s[j as int].w < x0 + w {
                    covered + s[j as int].w
                } else {
                    x0 + w
                };
                lemma_span_single(s, j as int, covered, m);
                lemma_span_max_y_split(s, x0, covered, m);
                assert(rect.y as int == span_max_y(s, x0, m));
            }
            // the source rect is too large
            proof {
                lemma_seg_in_bounds(s, max_w, max_h, j as int);
                let m = if covered + s[j as int].w < x0 + w {
                    covered + s[j as int].w
                } else {
                    x0 + w
                };
                lemma_span_max_y_ub(s, x0, m, max_h);
                assert(rect.y as int <= max_h);
            }
            if !self.border.contains(&rect) {
                proof {
                    let m = if covered + s[j as int].w < x0 + w {
                        covered + s[j as int].w
                    } else {
                        x0 + w
                    };
                    if x0 + w <= max_w {
                        lemma_span_max_y_split(s, x0, m, x0 + w);
                        lemma_span_max_y_nonneg(s, x0, m);
                        lemma_span_max_y_nonneg(s, m, x0 + w);
                    }
                }
                return None;
            }
            if self.skylines[j].w >= width_left {
                proof {
                    assert(x0 + w <= covered + s[j as int].w);
                }
                return Some(rect);
            }
            width_left = width_left - self.skylines[j].w;
            proof {
                if j == s.len() - 1 {
                    assert(s[j as int].x + s[j as int].w == max_w);
                    assert(false);
                }
            }
            j = j + 1;
        }
    }
    /// Scan every segment as a candidate start for both allowed orientations
    /// and keep the placement with the lowest bottom edge, tie-broken by the
    /// narrowest start segment.
    fn find_skyline(&self, w: u32, h: u32) -> (r: Option<(usize, Rect)>)
        requires
            self.wf(),
            1 <= w,
            1 <= h,
            w + self.spec_max_w() <= u32::MAX,
            h + self.spec_max_h() <= u32::MAX,
            w + self.spec_max_h() <= u32::MAX,
            h + self.spec_max_w() <= u32::MAX,
        ensures
            r.is_some() <==> self.some_fit(w as int, h as int),
            r matches Some((i, rect)) ==> {
                let s = self.skylines@;
                &&& i < s.len()
                &&& self.oriented(w as int, h as int, rect.w as int, rect.h as int)
                &&& fits_at(s, self.spec_max_w(), self.spec_max_h(), i as int, rect.w as int, rect.h as int)
                &&& rect.x == s[i as int].x
                &&& rect.y as int == span_max_y(s, s[i as int].x as int, s[i as int].x + rect.w)
                &&& self.is_min_bottom(w as int, h as int, cand_bottom(s, i as int, rect.w as int, rect.h as int))
                &&& forall|j: int, sw: int, sh: int|
                    self.oriented(w as int, h as int, sw, sh) && #[trigger] fits_at(
                        s,
                        self.spec_max_w(),
                        self.spec_max_h(),
                        j,
                        sw,
                        sh,
                    ) && cand_bottom(s, j, sw, sh) == cand_bottom(
                        s,
                        i as int,
                        rect.w as int,
                        rect.h as int,
                    ) ==> s[j].w >= s[i as int].w
            },
    {
        let ghost s = self.skylines@;
        let ghost max_w = self.spec_max_w();
        let ghost max_h = self.spec_max_h();
        let mut bottom = u32::MAX;
        let mut width = u32::MAX;
        let mut index: Option<usize> = None;
        let mut rect = Rect::new(0, 0, 0, 0);
        let n = self.skylines.len();
        let mut i: usize = 0;

        // keep the `bottom` and `width` as small as possible
        while i < n
            invariant
                self.wf(),
                s == self.skylines@,
                n == s.len(),
                max_w == self.spec_max_w(),
                max_h == self.spec_max_h(),
                i <= n,
                1 <= w,
                1 <= h,
                w + max_w <= u32::MAX,
                h + max_h <= u32::MAX,
                w + max_h <= u32::MAX,
                h + max_w <= u32::MAX,
                index matches Some(b) ==> {
                    &&& b < s.len()
                    &&& self.oriented(w as int, h as int, rect.w as int, rect.h as int)
                    &&& fits_at(s, max_w, max_h, b as int, rect.w as int, rect.h as int)
                    &&& rect.x == s[b as int].x
                    &&& rect.y as int == span_max_y(s, s[b as int].x as int, s[b as int].x + rect.w)
                    &&& bottom as int == cand_bottom(s, b as int, rect.w as int, rect.h as int)
                    &&& width == s[b as int].w
                    &&& forall|j: int, sw: int, sh: int|
                        0 <= j < i && self.oriented(w as int, h as int, sw, sh) && #[trigger] fits_at(
                            s,
                            max_w,
                            max_h,
                            j,
                            sw,
                            sh,
                        ) ==> cand_bottom(s, j, sw, sh) >= bottom as int
                    &&& forall|j: int, sw: int, sh: int|
                        0 <= j < i && self.oriented(w as int, h as int, sw, sh) && #[trigger] fits_at(
                            s,
                            max_w,
                            max_h,
                            j,
                            sw,
                            sh,
                        ) && cand_bottom(s, j, sw, sh) == bottom as int ==> s[j].w >= width
                },
                index.is_none() ==> bottom == u32::MAX && width == u32::MAX,
                index.is_none() ==> forall|j: int, sw: int, sh: int|
                    0 <= j < i && self.oriented(w as int, h as int, sw, sh) ==> !#[trigger] fits_at(
                        s,
                        max_w,
                        max_h,
                        j,
                        sw,
                        sh,
                    ),
            decreases n - i,
        {
            if let Some(r) = self.can_put(i, w, h) {
                proof {
                    lemma_span_max_y_ub(s, s[i as int].x as int, s[i as int].x + w, max_h);
                    lemma_span_max_y_nonneg(s, s[i as int].x as int, s[i as int].x + w);
                }
                let rb = r.bottom();
                if rb < bottom || (rb == bottom && self.skylines[i].w < width) {
                    bottom = rb;
                    width = self.skylines[i].w;
                    index = Some(i);
                    rect = r;
                }
            }
            if self.config.allow_rotation {
                if let Some(r) = self.can_put(i, h, w) {
                    proof {
                        lemma_span_max_y_ub(s, s[i as int].x as int, s[i as int].x + h, max_h);
                        lemma_span_max_y_nonneg(s, s[i as int].x as int, s[i as int].x + h);
                    }
                    let rb = r.bottom();
                    if rb < bottom || (rb == bottom && self.skylines[i].w < width) {
                        bottom = rb;
                        width = self.skylines[i].w;
                        index = Some(i);
                        rect = r;
                    }
                }
            }
            i = i + 1;
        }

        if let Some(b) = index {
            proof {
                assert(fits_at(s, max_w, max_h, b as int, rect.w as int, rect.h as int));
            }
            Some((b, rect))
        } else {
            None
        }
    }
}

/// Every segment of a well-formed skyline ends inside the atlas width.
pub proof fn lemma_seg_in_bounds(s: Seq<Skyline>, max_w: int, max_h: int, i: int)
    requires
        wf_seq(s, max_w, max_h),
        0 <= i < s.len(),
    ensures
        s[i].x + s[i].w <= max_w,
        s[i].x < max_w,
    decreases s.len(),
{
    if i < s.len() - 1 {
        lemma_seg_order(s, i, s.len() - 1);
    }
}

/// Every column of the atlas lies in some segment of a well-formed skyline;
/// returns that segment's index.
pub proof fn lemma_find_seg(s: Seq<Skyline>, max_w: int, max_h: int, c: int) -> (i: int)
    requires
        wf_seq(s, max_w, max_h),
        0 <= c < max_w,
    ensures
        0 <= i < s.len(),
        s[i].x <= c < s[i].x + s[i].w,
{
    if c < s[0].x + s[0].w {
        0
    } else {
        lemma_find_seg_suffix(s, max_w, c)
    }
}

/// Helper for the recursion: the list need not start at column zero.
proof fn lemma_find_seg_suffix(s: Seq<Skyline>, max_w: int, c: int) -> (i: int)
    requires
        s.len() >= 1,
        contiguous(s),
        s[s.len() - 1].x + s[s.len() - 1].w == max_w,
        s[0].x + s[0].w <= c < max_w,
    ensures
        0 <= i < s.len(),
        s[i].x <= c < s[i].x + s[i].w,
    decreases s.len(),
{
    assert(s.len() >= 2);
    let sub = s.drop_first();
    assert forall|i: int|
        0 <= i < sub.len() - 1 implies #[trigger] sub[i + 1].x == sub[i].x + sub[i].w by {
        assert(sub[i + 1] == s[i + 2]);
        assert(sub[i] == s[i + 1]);
    }
    assert(sub[sub.len() - 1] == s[s.len() - 1]);
    assert(sub[0] == s[1]);
    if c < sub[0].x + sub[0].w {
        1
    } else {
        let j = lemma_find_seg_suffix(sub, max_w, c);
        j + 1
    }
}

/// The skyline that results from inserting the raised segment for `rect` and
/// cutting the covered old segments is well formed, and each of its segments
/// is the raised one or a piece of an old segment outside `rect`'s span.
///
/// `head` is the shrunk remainder of old segment `k` when the cut stopped
/// inside it; `None` when the cut ended exactly on a segment boundary, in
/// which case the suffix starts at old segment `k`.
pub proof fn lemma_split_result(
    s: Seq<Skyline>,
    max_w: int,
    max_h: int,
    rect: Rect,
    new_seg: Skyline,
    k: int,
    head: Option<Skyline>,
    v: Seq<Skyline>,
    index: int,
)
    requires
        wf_seq(s, max_w, max_h),
        max_w <= u32::MAX,
        max_h <= u32::MAX,
        0 <= index < s.len(),
        index <= k <= s.len(),
        rect.x == s[index].x,
        1 <= rect.w,
        1 <= rect.h,
        rect.x + rect.w <= max_w,
        rect.y + rect.h <= max_h,
        new_seg == (Skyline { x: rect.x, y: (rect.y + rect.h) as u32, w: rect.w }),
        k > index ==> s[k - 1].x + s[k - 1].w <= rect.x + rect.w,
        match head {
            None => {
                &&& v == s.subrange(0, index) + seq![new_seg] + s.subrange(k, s.len() as int)
                &&& (k < s.len() ==> s[k].x >= rect.x + rect.w)
            },
            Some(hseg) => {
                &&& k < s.len()
                &&& v == s.subrange(0, index) + seq![new_seg] + seq![hseg] + s.subrange(
                    k + 1,
                    s.len() as int,
                )
                &&& hseg.x == rect.x + rect.w
                &&& hseg.y == s[k].y
                &&& 1 <= hseg.w
                &&& hseg.x + hseg.w == s[k].x + s[k].w
                &&& s[k].x <= hseg.x
            },
        },
    ensures
        wf_seq(v, max_w, max_h),
        forall|m: int| 0 <= m < v.len() ==> split_seg_ok(s, rect, #[trigger] v[m]),
{
    let n = s.len() as int;
    let rect_end = rect.x + rect.w;
    assert(new_seg.y == rect.y + rect.h);
    // where the suffix starts inside `v`, and at which old segment
    let suffix_at: int = if head.is_none() {
        index + 1
    } else {
        index + 2
    };
    let suffix_from: int = if head.is_none() {
        k
    } else {
        k + 1
    };
    assert(v.len() == suffix_at + (n - suffix_from));
    assert(forall|m: int| 0 <= m < index ==> #[trigger] v[m] == s[m]);
    assert(v[index] == new_seg);
    assert(forall|m: int| suffix_at <= m < v.len() ==> #[trigger] v[m] == s[suffix_from + m
        - suffix_at]);

    // the cut ended exactly at the right edge of `rect`
    assert(head.is_none() && k < n ==> s[k].x == rect_end) by {
        if head.is_none() && k < n {
            if k == index {
                assert(s[k].x < rect_end);
                assert(false);
            } else {
                assert(s[k - 1 + 1].x == s[k - 1].x + s[k - 1].w);
            }
        }
    }
    assert(head.is_none() && k == n ==> rect_end == max_w) by {
        if head.is_none() && k == n {
            assert(s[k - 1].x + s[k - 1].w == max_w);
        }
    }

    // well-formedness of the result
    assert(v[0].x == 0) by {
        if index > 0 {
            assert(v[0] == s[0]);
        } else {
            assert(v[0] == new_seg);
        }
    }
    assert forall|t: int| 0 <= t < v.len() - 1 implies #[trigger] v[t + 1].x == v[t].x + v[t].w by {
        if t + 1 < index {
            assert(v[t] == s[t] && v[t + 1] == s[t + 1]);
            assert(s[t + 1].x == s[t].x + s[t].w);
        } else if t + 1 == index {
            assert(v[t] == s[t] && v[t + 1] == new_seg);
            assert(s[t + 1].x == s[t].x + s[t].w);
        } else if t == index {
            if head.is_none() {
                assert(v[t + 1] == s[k]);
            } else {
                assert(v[t + 1] == head.unwrap());
            }
        } else if t == index + 1 && head.is_some() {
            assert(v[t] == head.unwrap());
            assert(v[t + 1] == s[k + 1]);
            assert(s[k + 1].x == s[k].x + s[k].w);
        } else {
            let j = suffix_from + t - suffix_at;
            assert(v[t] == s[j] && v[t + 1] == s[j + 1]);
            assert(s[j + 1].x == s[j].x + s[j].w);
        }
    }
    assert forall|t: int| 0 <= t < v.len() implies 1 <= (#[trigger] v[t]).w && v[t].y <= max_h by {
        if t < index {
            assert(v[t] == s[t]);
        } else if t == index {
            assert(v[t] == new_seg);
        } else if t == index + 1 && head.is_some() {
            assert(v[t] == head.unwrap());
        } else {
            assert(v[t] == s[suffix_from + t - suffix_at]);
        }
    }
    assert(v[v.len() - 1].x + v[v.len() - 1].w == max_w) by {
        if head.is_none() {
            if k < n {
                assert(v[v.len() - 1] == s[n - 1]);
            } else {
                assert(v[v.len() - 1] == new_seg);
            }
        } else {
            if k + 1 < n {
                assert(v[v.len() - 1] == s[n - 1]);
            } else {
                let hseg = head.unwrap();
                assert(v[v.len() - 1] == hseg);
                assert(hseg.x + hseg.w == s[k].x + s[k].w);
                assert(s[k].x + s[k].w == max_w);
            }
        }
    }
    assert(wf_seq(v, max_w, max_h));

    // every segment of the result is accounted for
    assert forall|m: int| 0 <= m < v.len() implies split_seg_ok(s, rect, #[trigger] v[m]) by {
        if m < index {
            assert(v[m] == s[m]);
            lemma_seg_order(s, m, index);
            assert(s[m].y == v[m].y && s[m].x <= v[m].x && v[m].x + v[m].w <= s[m].x + s[m].w
                && !seg_overlaps(v[m], rect.x as int, rect_end));
        } else if m == index {
            assert(v[m] == new_seg);
            assert(v[m].x == rect.x && v[m].y == rect.y + rect.h && v[m].w == rect.w);
        } else if m == index + 1 && head.is_some() {
            let hseg = head.unwrap();
            assert(v[m] == hseg);
            assert(!seg_overlaps(hseg, rect.x as int, rect_end));
            assert(s[k].y == hseg.y && s[k].x <= hseg.x && hseg.x + hseg.w <= s[k].x + s[k].w
                && !seg_overlaps(hseg, rect.x as int, rect_end));
        } else {
            let j = suffix_from + m - suffix_at;
            assert(v[m] == s[j]);
            assert(s[j].x >= rect_end) by {
                if head.is_none() {
                    if j > k {
                        lemma_seg_order(s, k, j);
                    }
                } else {
                    let hseg = head.unwrap();
                    if j > k {
                        lemma_seg_order(s, k, j);
                    }
                    assert(s[k].x + s[k].w == hseg.x + hseg.w);
                    assert(hseg.x == rect_end);
                }
            }
            assert(!seg_overlaps(v[m], rect.x as int, rect_end));
            assert(s[j].y == v[m].y && s[j].x <= v[m].x && v[m].x + v[m].w <= s[j].x + s[j].w
                && !seg_overlaps(v[m], rect.x as int, rect_end));
        }
    }
}

impl SkylinePacker {
    /// Insert the raised segment for a committed placement at `index`, then
    /// shorten or drop the old segments that the placement covers.
    fn split(&mut self, index: usize, rect: &Rect)
        requires
            old(self).config.config_ok(),
            wf_seq(old(self).skylines@, old(self).spec_max_w(), old(self).spec_max_h()),
            index < old(self).skylines@.len(),
            rect.x == old(self).skylines@[index as int].x,
            1 <= rect.w,
            1 <= rect.h,
            rect.x + rect.w <= old(self).spec_max_w(),
            rect.y + rect.h <= old(self).spec_max_h() - 1,
        ensures
            final(self).config == old(self).config,
            final(self).border == old(self).border,
            final(self).placed == old(self).placed,
            wf_seq(final(self).skylines@, old(self).spec_max_w(), old(self).spec_max_h()),
            forall|m: int|
                0 <= m < final(self).skylines@.len() ==> split_seg_ok(
                    old(self).skylines@,
                    *rect,
                    #[trigger] final(self).skylines@[m],
                ),
            forall|c: int|
                rect.x <= c < rect.x + rect.w ==> #[trigger] span_max_y(
                    final(self).skylines@,
                    c,
                    c + 1,
                ) == rect.y + rect.h,
            forall|c: int|
                (0 <= c < rect.x || rect.x + rect.w <= c < old(self).spec_max_w())
                    ==> #[trigger] span_max_y(final(self).skylines@, c, c + 1) == span_max_y(
                    old(self).skylines@,
                    c,
                    c + 1,
                ),
    {
        let ghost s = self.skylines@;
        let ghost max_w = self.spec_max_w();
        let ghost max_h = self.spec_max_h();
        let ghost n_old = s.len() as int;
        let ghost rect_end: int = rect.x + rect.w;

        let pre_len = self.skylines.len();
        let skyline = Skyline { x: rect.left(), y: rect.bottom() + 1, w: rect.w };
        let ghost new_seg = skyline;

        assert(skyline.x + skyline.w <= max_w);
        assert(skyline.y <= max_h - 1);

        self.skylines.insert(index, skyline);

        let i = index + 1;
        let ghost mut k: int = index as int;
        proof {
            assert(self.skylines@ =~= s.subrange(0, index as int) + seq![new_seg] + s.subrange(
                k,
                n_old,
            ));
        }
        loop
            invariant_except_break
                self.config == old(self).config,
                self.border == old(self).border,
                self.placed == old(self).placed,
                s == old(self).skylines@,
                max_w == old(self).spec_max_w(),
                max_h == old(self).spec_max_h(),
                max_w <= u32::MAX,
                max_h <= u32::MAX,
                n_old == s.len() as int,
                rect_end == rect.x + rect.w,
                wf_seq(s, max_w, max_h),
                index < s.len(),
                rect.x == s[index as int].x,
                1 <= rect.w,
                1 <= rect.h,
                rect.x + rect.w <= max_w,
                rect.y + rect.h <= max_h - 1,
                new_seg == (Skyline { x: rect.x, y: (rect.y + rect.h) as u32, w: rect.w }),
                i == index + 1,
                index as int <= k <= n_old,
                self.skylines@ == s.subrange(0, index as int) + seq![new_seg] + s.subrange(
                    k,
                    n_old,
                ),
                k > index ==> s[k - 1].x + s[k - 1].w <= rect_end,
            ensures
                self.config == old(self).config,
                self.border == old(self).border,
                self.placed == old(self).placed,
                wf_seq(self.skylines@, old(self).spec_max_w(), old(self).spec_max_h()),
                forall|m: int|
                    0 <= m < self.skylines@.len() ==> split_seg_ok(
                        old(self).skylines@,
                        *rect,
                        #[trigger] self.skylines@[m],
                    ),
            decreases n_old - k,
        {
            if i >= self.skylines.len() {
                proof {
                    assert(self.skylines@.len() == index + 1 + (n_old - k));
                    assert(k == n_old);
                    assert(self.skylines@ =~= s.subrange(0, index as int) + seq![new_seg]
                        + s.subrange(k, n_old));
                    lemma_split_result(
                        s,
                        max_w,
                        max_h,
                        *rect,
                        new_seg,
                        k,
                        None,
                        self.skylines@,
                        index as int,
                    );
                }
                break;
            }
            proof {
                assert(self.skylines@.len() == index + 1 + (n_old - k));
                assert(k < n_old);
                assert(self.skylines@[i as int] == s[k]);
                assert(self.skylines@[index as int] == new_seg);
                if k > index {
                    lemma_seg_order(s, index as int, k);
                }
                lemma_seg_in_bounds(s, max_w, max_h, k);
            }
            assert(self.skylines@[i as int - 1].x <= self.skylines@[i as int].x);

            if self.skylines[i].left() <= self.skylines[i - 1].right() {
                let shrink = self.skylines[i - 1].right() - self.skylines[i].left() + 1;
                proof {
                    assert(shrink == rect_end - s[k].x);
                }
                if self.skylines[i].w <= shrink {
                    self.skylines.remove(i);
                    proof {
                        assert(s[k].x + s[k].w <= rect_end);
                        k = k + 1;
                        assert(self.skylines@ =~= s.subrange(0, index as int) + seq![new_seg]
                            + s.subrange(k, n_old));
                    }
                } else {
                    let prev = self.skylines[i];
                    let updated = Skyline { x: prev.x + shrink, y: prev.y, w: prev.w - shrink };
                    let ghost hseg = updated;
                    self.skylines.remove(i);
                    self.skylines.insert(i, updated);
                    proof {
                        assert(hseg.x == rect_end);
                        assert(hseg.y == s[k].y);
                        assert(hseg.x + hseg.w == s[k].x + s[k].w);
                        assert(self.skylines@ =~= s.subrange(0, index as int) + seq![new_seg]
                            + seq![hseg] + s.subrange(k + 1, n_old));
                        lemma_split_result(
                            s,
                            max_w,
                            max_h,
                            *rect,
                            new_seg,
                            k,
                            Some(hseg),
                            self.skylines@,
                            index as int,
                        );
                    }
                    break;
                }
            } else {
                proof {
                    assert(s[k].x >= rect_end);
                    lemma_split_result(
                        s,
                        max_w,
                        max_h,
                        *rect,
                        new_seg,
                        k,
                        None,
                        self.skylines@,
                        index as int,
                    );
                }
                break;
            }
        }
        proof {
            lemma_split_profile(s, self.skylines@, max_w, max_h, *rect);
        }
    }

    /// Coalesce adjacent segments that share the same height, keeping the
    /// segment list minimal without changing the profile it describes.  On a
    /// list that is already minimal — such as the result of a previous call —
    /// nothing changes.
    fn merge(&mut self)
        requires
            old(self).config.config_ok(),
            wf_seq(old(self).skylines@, old(self).spec_max_w(), old(self).spec_max_h()),
        ensures
            final(self).config == old(self).config,
            final(self).border == old(self).border,
            final(self).placed == old(self).placed,
            wf_seq(final(self).skylines@, old(self).spec_max_w(), old(self).spec_max_h()),
            adjacent_heights_differ(final(self).skylines@),
            adjacent_heights_differ(old(self).skylines@) ==> final(self).skylines@ == old(
                self,
            ).skylines@,
            forall|m: int, c: int|
                0 <= m < final(self).skylines@.len() && #[trigger] col_in_seg(
                    final(self).skylines@[m],
                    c,
                ) ==> exists|j: int|
                    0 <= j < old(self).skylines@.len() && #[trigger] col_in_seg(
                        old(self).skylines@[j],
                        c,
                    ) && old(self).skylines@[j].y == final(self).skylines@[m].y,
            forall|c: int|
                0 <= c < old(self).spec_max_w() ==> #[trigger] span_max_y(
                    final(self).skylines@,
                    c,
                    c + 1,
                ) == span_max_y(old(self).skylines@, c, c + 1),
    {
        let ghost s = old(self).skylines@;
        let ghost max_w = self.spec_max_w();
        let ghost max_h = self.spec_max_h();
        let mut i: usize = 1;
        while i < self.skylines.len()
            invariant
                self.config == old(self).config,
                self.border == old(self).border,
                self.placed == old(self).placed,
                s == old(self).skylines@,
                max_w == old(self).spec_max_w(),
                max_h == old(self).spec_max_h(),
                max_w <= u32::MAX,
                wf_seq(self.skylines@, max_w, max_h),
                1 <= i <= self.skylines@.len(),
                forall|t: int|
                    0 <= t < i - 1 ==> self.skylines@[t].y != (#[trigger] self.skylines@[t
                        + 1]).y,
                adjacent_heights_differ(s) ==> self.skylines@ == s,
                forall|m: int, c: int|
                    0 <= m < self.skylines@.len() && #[trigger] col_in_seg(
                        self.skylines@[m],
                        c,
                    ) ==> exists|j: int|
                        0 <= j < s.len() && #[trigger] col_in_seg(s[j], c) && s[j].y
                            == self.skylines@[m].y,
            decreases self.skylines@.len() * 2 - i,
        {
            let ghost v = self.skylines@;
            let ghost n2 = v.len() as int;
            let ghost p: int = i as int - 1;
            if self.skylines[i - 1].y == self.skylines[i].y {
                proof {
                    lemma_seg_in_bounds(v, max_w, max_h, i as int);
                    assert(v[p + 1].x == v[p].x + v[p].w);
                }
                let prev = self.skylines[i - 1];
                let cur = self.skylines[i];
                let merged = Skyline { x: prev.x, y: prev.y, w: prev.w + cur.w };
                self.skylines.remove(i);
                self.skylines.remove(i - 1);
                self.skylines.insert(i - 1, merged);
                proof {
                    let v2 = self.skylines@;
                    assert(v2 =~= v.subrange(0, p) + seq![merged] + v.subrange(p + 2, n2));
                    assert(v2.len() == n2 - 1);
                    assert(forall|t: int| 0 <= t < p ==> #[trigger] v2[t] == v[t]);
                    assert(v2[p] == merged);
                    assert(forall|t: int| p < t < v2.len() ==> #[trigger] v2[t] == v[t + 1]);
                    assert forall|t: int|
                        0 <= t < v2.len() - 1 implies #[trigger] v2[t + 1].x == v2[t].x
                        + v2[t].w by {
                        if t + 1 < p {
                            assert(v2[t] == v[t] && v2[t + 1] == v[t + 1]);
                            assert(v[t + 1].x == v[t].x + v[t].w);
                        } else if t + 1 == p {
                            assert(v2[t] == v[t] && v2[t + 1] == merged);
                            assert(v[t + 1].x == v[t].x + v[t].w);
                        } else if t == p {
                            assert(v2[t] == merged && v2[t + 1] == v[t + 2]);
                            assert(v[p + 2].x == v[p + 1].x + v[p + 1].w);
                        } else {
                            assert(v2[t] == v[t + 1] && v2[t + 1] == v[t + 2]);
                            assert(v[t + 2].x == v[t + 1].x + v[t + 1].w);
                        }
                    }
                    assert(v2[0].x == 0) by {
                        if p > 0 {
                            assert(v2[0] == v[0]);
                        }
                    }
                    assert(v2[v2.len() - 1].x + v2[v2.len() - 1].w == max_w) by {
                        if p + 1 < v2.len() {
                            assert(v2[v2.len() - 1] == v[n2 - 1]);
                        } else {
                            assert(v2[v2.len() - 1] == merged);
                            assert(v[n2 - 1] == v[p + 1]);
                        }
                    }
                    assert forall|t: int|
                        0 <= t < v2.len() implies 1 <= (#[trigger] v2[t]).w && v2[t].y
                        <= max_h by {
                        if t < p {
                            assert(v2[t] == v[t]);
                        } else if t == p {
                            assert(v2[t] == merged);
                        } else {
                            assert(v2[t] == v[t + 1]);
                        }
                    }
                    assert(wf_seq(v2, max_w, max_h));
                    assert forall|m: int, c: int|
                        0 <= m < v2.len() && #[trigger] col_in_seg(v2[m], c) implies exists|j: int|
                        0 <= j < s.len() && #[trigger] col_in_seg(s[j], c) && s[j].y
                            == v2[m].y by {
                        if m < p {
                            assert(col_in_seg(v[m], c) && v[m].y == v2[m].y);
                        } else if m == p {
                            if c < merged.x + prev.w {
                                assert(col_in_seg(v[p], c) && v[p].y == v2[m].y);
                            } else {
                                assert(col_in_seg(v[p + 1], c) && v[p + 1].y == v2[m].y);
                            }
                        } else {
                            assert(col_in_seg(v[m + 1], c) && v[m + 1].y == v2[m].y);
                        }
                    }
                }
                i = i - 1;
            }
            i = i + 1;
        }
        proof {
            lemma_same_cover_profile(s, self.skylines@, max_w, max_h);
        }
    }
}

/// What a successful `pack` call guarantees: the tracker recorded exactly
/// one new placed rectangle `p`, that rectangle is an orientation of the
/// padded request with the lowest achievable bottom edge, it stays strictly
/// above the atlas's last pixel row, and the returned frame is `p` with the
/// padding and extrusion taken back off.
pub open spec fn placement_ok(
    pre: SkylinePacker,
    texture_rect: Rect,
    key: Seq<char>,
    frame: Frame,
    post: SkylinePacker,
) -> bool {
    let infl = pre.config.spec_inflation();
    let w_inf = texture_rect.w + infl;
    let h_inf = texture_rect.h + infl;
    let p = post.placed@.last();
    &&& post.placed@ == pre.placed@.push(p)
    &&& 1 <= p.w
    &&& 1 <= p.h
    &&& p.x + p.w <= pre.spec_max_w()
    &&& p.y + p.h <= pre.spec_max_h() - 1
    &&& pre.oriented(w_inf, h_inf, p.w as int, p.h as int)
    &&& pre.is_min_bottom(w_inf, h_inf, p.y + p.h - 1)
    &&& frame.key@ == key
    &&& frame.frame.x == p.x
    &&& frame.frame.y == p.y
    &&& frame.frame.w == p.w - infl
    &&& frame.frame.h == p.h - infl
    &&& frame.rotated == (p.w != w_inf)
    &&& frame.trimmed == false
    &&& frame.source == (Rect { x: 0, y: 0, w: texture_rect.w, h: texture_rect.h })
}

impl Packer for SkylinePacker {
    /// Configuration, border and skyline are consistent and every placement
    /// invariant holds.
    open spec fn wf(&self) -> bool {
        &&& self.config.config_ok()
        &&& self.border == (Rect {
            x: 0,
            y: 0,
            w: self.config.max_width,
            h: self.config.max_height,
        })
        &&& wf_seq(self.skylines@, self.spec_max_w(), self.spec_max_h())
        &&& self.placed_ok()
    }

    /// The request denotes real area and its padded sizes fit the
    /// placement arithmetic.
    open spec fn req_ok(&self, texture_rect: Rect) -> bool {
        &&& 1 <= texture_rect.w
        &&& 1 <= texture_rect.h
        &&& self.config.dims_ok(texture_rect.w as int, texture_rect.h as int)
    }

    fn pack(&mut self, key: String, texture_rect: &Rect) -> (r: Option<Frame>)
        ensures
            final(self).config == old(self).config,
            final(self).border == old(self).border,
            r.is_none() ==> *final(self) == *old(self),
            r.is_some() <==> old(self).spec_can_pack(
                texture_rect.w as int,
                texture_rect.h as int,
            ),
            r matches Some(frame) ==> placement_ok(
                *old(self),
                *texture_rect,
                key@,
                frame,
                *final(self),
            ),
    {
        let ghost s0 = self.skylines@;
        let ghost max_w = self.spec_max_w();
        let ghost max_h = self.spec_max_h();
        let ghost old_placed = self.placed@;
        let ghost w_inf: int = texture_rect.w + self.config.spec_inflation();
        let ghost h_inf: int = texture_rect.h + self.config.spec_inflation();

        let mut width = texture_rect.w;
        let mut height = texture_rect.h;

        width = width + (self.config.texture_padding + self.config.texture_extrusion * 2);
        height = height + (self.config.texture_padding + self.config.texture_extrusion * 2);

        match self.find_skyline(width, height) {
            Some((i, rect)) => {
                let ghost p = rect;
                // a placement flush with the atlas's bottom edge is refused,
                // as the dry run `can_pack` refuses it
                if rect.bottom() + 1 > self.border.bottom() {
                    proof {
                        if self.spec_can_place(w_inf, h_inf) {
                            let (i2, rw2, rh2) = choose|i2: int, rw2: int, rh2: int|
                                {
                                    &&& self.oriented(w_inf, h_inf, rw2, rh2)
                                    &&& #[trigger] fits_at(s0, max_w, max_h, i2, rw2, rh2)
                                    &&& cand_bottom(s0, i2, rw2, rh2) + 1 <= max_h - 1
                                    &&& self.is_min_bottom(
                                        w_inf,
                                        h_inf,
                                        cand_bottom(s0, i2, rw2, rh2),
                                    )
                                };
                            assert(fits_at(s0, max_w, max_h, i as int, rect.w as int, rect.h as int));
                            assert(cand_bottom(s0, i as int, rect.w as int, rect.h as int)
                                >= cand_bottom(s0, i2, rw2, rh2));
                            assert(cand_bottom(s0, i2, rw2, rh2) >= cand_bottom(
                                s0,
                                i as int,
                                rect.w as int,
                                rect.h as int,
                            ));
                            assert(false);
                        }
                    }
                    return None;
                }
                proof {
                    // the committed placement witnesses `spec_can_place`
                    assert(cand_bottom(s0, i as int, rect.w as int, rect.h as int) == rect.y
                        + rect.h - 1);
                    assert(self.spec_can_place(w_inf, h_inf));
                }

                self.split(i, &rect);
                let ghost s1 = self.skylines@;
                self.merge();
                let ghost s2 = self.skylines@;

                self.placed = Ghost(self.placed@.push(p));

                proof {
                    let placed2 = self.placed@;
                    assert(placed2.len() == old_placed.len() + 1);
                    assert(placed2.last() == p);
                    assert(forall|k: int|
                        0 <= k < old_placed.len() ==> placed2[k] == #[trigger] old_placed[k]);

                    // the new rectangle is disjoint from everything placed before
                    assert forall|k: int| 0 <= k < old_placed.len() implies p.spec_disjoint(
                        #[trigger] old_placed[k],
                    ) by {
                        let q = old_placed[k];
                        if !p.spec_disjoint(q) {
                            let c: int = if p.x >= q.x {
                                p.x as int
                            } else {
                                q.x as int
                            };
                            assert(p.x <= c < p.x + p.w);
                            assert(q.x <= c < q.x + q.w);
                            let t = lemma_find_seg(s0, max_w, max_h, c);
                            assert(seg_overlaps(s0[t], q.x as int, q.x + q.w));
                            assert(q.y + q.h <= s0[t].y);
                            assert(seg_overlaps(s0[t], p.x as int, p.x + p.w));
                            lemma_span_max_y_ge(s0, p.x as int, p.x + p.w, t);
                            assert(s0[t].y <= p.y);
                            assert(false);
                        }
                    }

                    // everything placed, old and new, stays below the new skyline
                    assert forall|k: int, m: int|
                        0 <= k < placed2.len() && 0 <= m < s2.len() && seg_overlaps(
                            #[trigger] s2[m],
                            (#[trigger] placed2[k]).x as int,
                            placed2[k].x + placed2[k].w,
                        ) implies placed2[k].y + placed2[k].h <= s2[m].y by {
                        let q = placed2[k];
                        let seg = s2[m];
                        let c: int = if seg.x >= q.x {
                            seg.x as int
                        } else {
                            q.x as int
                        };
                        assert(col_in_seg(seg, c));
                        assert(q.x <= c < q.x + q.w);
                        let j = choose|j: int|
                            0 <= j < s1.len() && #[trigger] col_in_seg(s1[j], c) && s1[j].y
                                == seg.y;
                        assert(split_seg_ok(s0, p, s1[j]));
                        if k < old_placed.len() {
                            assert(q == old_placed[k]);
                            if s1[j].x == p.x && s1[j].y == p.y + p.h && s1[j].w == p.w {
                                // the raised segment: the old rectangle lies
                                // under the placement's span
                                let t = lemma_find_seg(s0, max_w, max_h, c);
                                assert(seg_overlaps(s0[t], q.x as int, q.x + q.w));
                                assert(q.y + q.h <= s0[t].y);
                                assert(seg_overlaps(s0[t], p.x as int, p.x + p.w));
                                lemma_span_max_y_ge(s0, p.x as int, p.x + p.w, t);
                                assert(s0[t].y <= p.y);
                            } else {
                                let j2 = choose|j2: int|
                                    0 <= j2 < s0.len() && (#[trigger] s0[j2]).y == s1[j].y
                                        && s0[j2].x <= s1[j].x && s1[j].x + s1[j].w <= s0[j2].x
                                        + s0[j2].w && !seg_overlaps(
                                        s1[j],
                                        p.x as int,
                                        p.x + p.w,
                                    );
                                assert(s0[j2].x <= c < s0[j2].x + s0[j2].w);
                                assert(seg_overlaps(s0[j2], q.x as int, q.x + q.w));
                                assert(q.y + q.h <= s0[j2].y);
                            }
                        } else {
                            assert(q == p);
                            if s1[j].x == p.x && s1[j].y == p.y + p.h && s1[j].w == p.w {
                                assert(q.y + q.h <= s1[j].y);
                            } else {
                                assert(!seg_overlaps(s1[j], p.x as int, p.x + p.w));
                                assert(col_in_seg(s1[j], c));
                                assert(p.x <= c < p.x + p.w);
                                assert(false);
                            }
                        }
                    }
                    assert(self.placed_ok());
                }

                let rotated = width != rect.w;
                let mut rect = rect;

                rect.w = rect.w - (self.config.texture_padding + self.config.texture_extrusion
                    * 2);
                rect.h = rect.h - (self.config.texture_padding + self.config.texture_extrusion
                    * 2);

                Some(
                    Frame {
                        key,
                        frame: rect,
                        rotated,
                        trimmed: false,
                        source: Rect { x: 0, y: 0, w: texture_rect.w, h: texture_rect.h },
                    },
                )
            },
            None => {
                proof {
                    if self.spec_can_place(w_inf, h_inf) {
                        let (i2, rw2, rh2) = choose|i2: int, rw2: int, rh2: int|
                            {
                                &&& self.oriented(w_inf, h_inf, rw2, rh2)
                                &&& #[trigger] fits_at(s0, max_w, max_h, i2, rw2, rh2)
                                &&& cand_bottom(s0, i2, rw2, rh2) + 1 <= max_h - 1
                                &&& self.is_min_bottom(
                                    w_inf,
                                    h_inf,
                                    cand_bottom(s0, i2, rw2, rh2),
                                )
                            };
                        assert(self.some_fit(w_inf, h_inf));
                        assert(false);
                    }
                }
                None
            },
        }
    }

    fn can_pack(&self, texture_rect: &Rect) -> (r: bool)
        ensures
            r == self.spec_can_pack(texture_rect.w as int, texture_rect.h as int),
    {
        let ghost s0 = self.skylines@;
        let ghost max_w = self.spec_max_w();
        let ghost max_h = self.spec_max_h();
        let ghost w_inf: int = texture_rect.w + self.config.spec_inflation();
        let ghost h_inf: int = texture_rect.h + self.config.spec_inflation();

        if let Some((i, rect)) = self.find_skyline(
            texture_rect.w + (self.config.texture_padding + self.config.texture_extrusion * 2),
            texture_rect.h + (self.config.texture_padding + self.config.texture_extrusion * 2),
        ) {
            let skyline = Skyline { x: rect.left(), y: rect.bottom() + 1, w: rect.w };

            let fits = skyline.right() <= self.border.right() && skyline.y
                <= self.border.bottom();
            proof {
                assert(cand_bottom(s0, i as int, rect.w as int, rect.h as int) == rect.y + rect.h
                    - 1);
                if fits {
                    assert(self.spec_can_place(w_inf, h_inf));
                } else {
                    if self.spec_can_place(w_inf, h_inf) {
                        let (i2, rw2, rh2) = choose|i2: int, rw2: int, rh2: int|
                            {
                                &&& self.oriented(w_inf, h_inf, rw2, rh2)
                                &&& #[trigger] fits_at(s0, max_w, max_h, i2, rw2, rh2)
                                &&& cand_bottom(s0, i2, rw2, rh2) + 1 <= max_h - 1
                                &&& self.is_min_bottom(
                                    w_inf,
                                    h_inf,
                                    cand_bottom(s0, i2, rw2, rh2),
                                )
                            };
                        assert(fits_at(s0, max_w, max_h, i as int, rect.w as int, rect.h as int));
                        assert(cand_bottom(s0, i as int, rect.w as int, rect.h as int)
                            >= cand_bottom(s0, i2, rw2, rh2));
                        assert(cand_bottom(s0, i2, rw2, rh2) >= cand_bottom(
                            s0,
                            i as int,
                            rect.w as int,
                            rect.h as int,
                        ));
                        assert(false);
                    }
                }
            }
            return fits;
        }
        proof {
            if self.spec_can_place(w_inf, h_inf) {
                let (i2, rw2, rh2) = choose|i2: int, rw2: int, rh2: int|
                    {
                        &&& self.oriented(w_inf, h_inf, rw2, rh2)
                        &&& #[trigger] fits_at(s0, max_w, max_h, i2, rw2, rh2)
                        &&& cand_bottom(s0, i2, rw2, rh2) + 1 <= max_h - 1
                        &&& self.is_min_bottom(w_inf, h_inf, cand_bottom(s0, i2, rw2, rh2))
                    };
                assert(self.some_fit(w_inf, h_inf));
                assert(false);
            }
        }
        false
    }
}

/// Widening a span can only raise its maximum.
pub proof fn lemma_span_max_y_mono(s: Seq<Skyline>, x0: int, x1a: int, x1b: int)
    requires
        x0 <= x1a <= x1b,
        forall|i: int| 0 <= i < s.len() ==> 1 <= #[trigger] s[i].w,
    ensures
        span_max_y(s, x0, x1a) <= span_max_y(s, x0, x1b),
{
    lemma_span_max_y_split(s, x0, x1a, x1b);
    lemma_span_max_y_nonneg(s, x1a, x1b);
}

/// Sum of the segment widths.
pub open spec fn widths_sum(s: Seq<Skyline>) -> int
    decreases s.len(),
{
    if s.len() == 0 {
        0
    } else {
        widths_sum(s.drop_last()) + s.last().w
    }
}

/// In a contiguous list the widths sum to the distance from the first
/// segment's left edge to the last segment's right edge.
proof fn lemma_widths_sum_contiguous(s: Seq<Skyline>)
    requires
        contiguous(s),
        s.len() >= 1,
    ensures
        widths_sum(s) == s[s.len() - 1].x + s[s.len() - 1].w - s[0].x,
    decreases s.len(),
{
    if s.len() == 1 {
        assert(s.drop_last().len() == 0);
        assert(widths_sum(s.drop_last()) == 0);
        assert(widths_sum(s) == s.last().w);
    } else {
        let d = s.drop_last();
        assert(forall|i: int| 0 <= i < d.len() - 1 ==> #[trigger] d[i + 1].x == d[i].x + d[i].w);
        lemma_widths_sum_contiguous(d);
        assert(d[d.len() - 1] == s[s.len() - 2]);
        assert(d[0] == s[0]);
        assert(widths_sum(s) == widths_sum(d) + s.last().w);
        assert(s[s.len() - 2 + 1].x == s[s.len() - 2].x + s[s.len() - 2].w);
    }
}

/// Skyline coverage: the segment spans are contiguous, pairwise
/// non-overlapping, and their widths sum to exactly the atlas width.
pub proof fn lemma_skyline_coverage(p: &SkylinePacker)
    requires
        p.wf(),
    ensures
        p.skylines@.len() >= 1,
        p.skylines@[0].x == 0,
        contiguous(p.skylines@),
        forall|a: int, b: int|
            0 <= a < b < p.skylines@.len() ==> (#[trigger] p.skylines@[a]).x + p.skylines@[a].w
                <= (#[trigger] p.skylines@[b]).x,
        widths_sum(p.skylines@) == p.spec_max_w(),
{
    let s = p.skylines@;
    assert forall|a: int, b: int| 0 <= a < b < s.len() implies (#[trigger] s[a]).x + s[a].w
        <= (#[trigger] s[b]).x by {
        lemma_seg_order(s, a, b);
    }
    lemma_widths_sum_contiguous(s);
}

/// Among all fitting candidates there is one whose bottom edge is lowest.
pub proof fn lemma_exists_min_cand(p: &SkylinePacker, w: int, h: int, i: int, rw: int, rh: int)
    requires
        p.wf(),
        1 <= w,
        1 <= h,
        p.oriented(w, h, rw, rh),
        fits_at(p.skylines@, p.spec_max_w(), p.spec_max_h(), i, rw, rh),
    ensures
        exists|i2: int, rw2: int, rh2: int|
            {
                &&& p.oriented(w, h, rw2, rh2)
                &&& #[trigger] fits_at(p.skylines@, p.spec_max_w(), p.spec_max_h(), i2, rw2, rh2)
                &&& cand_bottom(p.skylines@, i2, rw2, rh2) <= cand_bottom(p.skylines@, i, rw, rh)
                &&& p.is_min_bottom(w, h, cand_bottom(p.skylines@, i2, rw2, rh2))
            },
    decreases cand_bottom(p.skylines@, i, rw, rh),
{
    let s = p.skylines@;
    let max_w = p.spec_max_w();
    let max_h = p.spec_max_h();
    lemma_span_max_y_nonneg(s, s[i].x as int, s[i].x + rw);
    if exists|j: int, sw: int, sh: int|
        p.oriented(w, h, sw, sh) && #[trigger] fits_at(s, max_w, max_h, j, sw, sh)
            && cand_bottom(s, j, sw, sh) < cand_bottom(s, i, rw, rh) {
        let (j, sw, sh) = choose|j: int, sw: int, sh: int|
            p.oriented(w, h, sw, sh) && #[trigger] fits_at(s, max_w, max_h, j, sw, sh)
                && cand_bottom(s, j, sw, sh) < cand_bottom(s, i, rw, rh);
        lemma_span_max_y_nonneg(s, s[j].x as int, s[j].x + sw);
        lemma_exists_min_cand(p, w, h, j, sw, sh);
    } else {
        assert(p.is_min_bottom(w, h, cand_bottom(s, i, rw, rh)));
    }
}

/// A placement that the tracker accepts stays accepted when the requested
/// rectangle shrinks in both directions.
pub proof fn lemma_can_place_monotone(p: &SkylinePacker, w1: int, h1: int, w2: int, h2: int)
    requires
        p.wf(),
        p.spec_can_place(w2, h2),
        1 <= w1 <= w2,
        1 <= h1 <= h2,
    ensures
        p.spec_can_place(w1, h1),
{
    let s = p.skylines@;
    let max_w = p.spec_max_w();
    let max_h = p.spec_max_h();
    let (i, rw2, rh2) = choose|i: int, rw2: int, rh2: int|
        {
            &&& p.oriented(w2, h2, rw2, rh2)
            &&& #[trigger] fits_at(s, max_w, max_h, i, rw2, rh2)
            &&& cand_bottom(s, i, rw2, rh2) + 1 <= max_h - 1
            &&& p.is_min_bottom(w2, h2, cand_bottom(s, i, rw2, rh2))
        };
    let (cw, ch): (int, int) = if rw2 == w2 && rh2 == h2 {
        (w1, h1)
    } else {
        (h1, w1)
    };
    assert(p.oriented(w1, h1, cw, ch));
    assert(cw <= rw2 && ch <= rh2);
    lemma_span_max_y_mono(s, s[i].x as int, s[i].x + cw, s[i].x + rw2);
    assert(fits_at(s, max_w, max_h, i, cw, ch));
    assert(cand_bottom(s, i, cw, ch) <= cand_bottom(s, i, rw2, rh2));
    lemma_exists_min_cand(p, w1, h1, i, cw, ch);
    let (i3, rw3, rh3) = choose|i3: int, rw3: int, rh3: int|
        {
            &&& p.oriented(w1, h1, rw3, rh3)
            &&& #[trigger] fits_at(s, max_w, max_h, i3, rw3, rh3)
            &&& cand_bottom(s, i3, rw3, rh3) <= cand_bottom(s, i, cw, ch)
            &&& p.is_min_bottom(w1, h1, cand_bottom(s, i3, rw3, rh3))
        };
    assert(cand_bottom(s, i3, rw3, rh3) + 1 <= max_h - 1);
}

/// A skyline that satisfies the split postcondition has the raised height
/// over the placed rectangle's span and the old height everywhere else.
pub proof fn lemma_split_profile(s: Seq<Skyline>, v: Seq<Skyline>, max_w: int, max_h: int, rect: Rect)
    requires
        wf_seq(s, max_w, max_h),
        wf_seq(v, max_w, max_h),
        1 <= rect.w,
        rect.x + rect.w <= max_w,
        forall|m: int| 0 <= m < v.len() ==> split_seg_ok(s, rect, #[trigger] v[m]),
    ensures
        forall|c: int|
            rect.x <= c < rect.x + rect.w ==> #[trigger] span_max_y(v, c, c + 1) == rect.y
                + rect.h,
        forall|c: int|
            (0 <= c < rect.x || rect.x + rect.w <= c < max_w) ==> #[trigger] span_max_y(
                v,
                c,
                c + 1,
            ) == span_max_y(s, c, c + 1),
{
    assert forall|c: int| rect.x <= c < rect.x + rect.w implies #[trigger] span_max_y(v, c, c + 1)
        == rect.y + rect.h by {
        let m = lemma_find_seg(v, max_w, max_h, c);
        assert(split_seg_ok(s, rect, v[m]));
        if !(v[m].x == rect.x && v[m].y == rect.y + rect.h && v[m].w == rect.w) {
            assert(!seg_overlaps(v[m], rect.x as int, rect.x + rect.w));
            assert(seg_overlaps(v[m], rect.x as int, rect.x + rect.w));
        }
        lemma_span_single(v, m, c, c + 1);
    }
    assert forall|c: int|
        (0 <= c < rect.x || rect.x + rect.w <= c < max_w) implies #[trigger] span_max_y(
        v,
        c,
        c + 1,
    ) == span_max_y(s, c, c + 1) by {
        let m = lemma_find_seg(v, max_w, max_h, c);
        assert(split_seg_ok(s, rect, v[m]));
        if v[m].x == rect.x && v[m].y == rect.y + rect.h && v[m].w == rect.w {
            assert(rect.x <= c < rect.x + rect.w);
            assert(false);
        }
        let j = choose|j: int|
            0 <= j < s.len() && (#[trigger] s[j]).y == v[m].y && s[j].x <= v[m].x && v[m].x
                + v[m].w <= s[j].x + s[j].w && !seg_overlaps(
                v[m],
                rect.x as int,
                rect.x + rect.w,
            );
        assert(s[j].x <= c < s[j].x + s[j].w);
        lemma_span_single(v, m, c, c + 1);
        lemma_span_single(s, j, c, c + 1);
    }
}

/// A skyline whose columns are all covered by old segments of the same
/// height describes the same profile as the old one.
pub proof fn lemma_same_cover_profile(s: Seq<Skyline>, v: Seq<Skyline>, max_w: int, max_h: int)
    requires
        wf_seq(s, max_w, max_h),
        wf_seq(v, max_w, max_h),
        forall|m: int, c: int|
            0 <= m < v.len() && #[trigger] col_in_seg(v[m], c) ==> exists|j: int|
                0 <= j < s.len() && #[trigger] col_in_seg(s[j], c) && s[j].y == v[m].y,
    ensures
        forall|c: int|
            0 <= c < max_w ==> #[trigger] span_max_y(v, c, c + 1) == span_max_y(s, c, c + 1),
{
    assert forall|c: int| 0 <= c < max_w implies #[trigger] span_max_y(v, c, c + 1)
        == span_max_y(s, c, c + 1) by {
        let m = lemma_find_seg(v, max_w, max_h, c);
        assert(col_in_seg(v[m], c));
        let j = choose|j: int|
            0 <= j < s.len() && #[trigger] col_in_seg(s[j], c) && s[j].y == v[m].y;
        lemma_span_single(v, m, c, c + 1);
        lemma_span_single(s, j, c, c + 1);
    }
}

} // verus!
