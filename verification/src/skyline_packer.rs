//! Skyline packer over a destination buffer: the same free-space profile as
//! the skyline tracker, copying each packed buffer's pixels into place.
//! Rotation is always considered.

use vstd::prelude::*;
use crate::buffer2d::{patch, patch_rotated, Buffer2d, Packer};
use crate::packer::skyline_packer::{
    adjacent_heights_differ, cand_bottom, fits_at, lemma_seg_in_bounds, lemma_span_max_y_ge,
    lemma_span_max_y_none,
    lemma_span_max_y_nonneg,
    lemma_span_max_y_split, lemma_span_max_y_ub, lemma_span_single, lemma_seg_order,
    lemma_same_cover_profile, lemma_split_profile, lemma_split_result, min_bottom_on,
    oriented_pair, span_max_y, split_seg_ok, wf_seq, Skyline, col_in_seg,
};
use crate::rect::Rect;

verus! {

/// Skyline packer around a destination buffer.
pub struct SkylinePacker<B: Buffer2d> {
    /// The destination buffer.
    pub buf: B,
    /// Cached buffer width.
    pub width: u32,
    /// Cached buffer height.
    pub height: u32,
    /// The skylines, sorted by their `x` position.
    pub skylines: Vec<Skyline>,
    /// Empty margin reserved around each packed buffer.
    pub margin: u32,
}

impl<B: Buffer2d> SkylinePacker<B> {
    /// The skyline spans the buffer width and the whole buffer can be
    /// written.
    pub open spec fn wf(self) -> bool {
        &&& self.buf.wf()
        &&& self.width == self.buf.spec_width()
        &&& self.height == self.buf.spec_height()
        &&& wf_seq(self.skylines@, self.width as int, self.height as int)
        &&& forall|a: int, b: int|
            0 <= a < self.buf.spec_width() && 0 <= b < self.buf.spec_height()
                ==> self.buf.settable(a, b)
    }

    /// Create a packer whose skyline is the buffer's top edge.
    pub fn new(buf: B) -> (r: SkylinePacker<B>)
        requires
            buf.wf(),
            1 <= buf.spec_width(),
            forall|a: int, b: int|
                0 <= a < buf.spec_width() && 0 <= b < buf.spec_height() ==> buf.settable(a, b),
        ensures
            r.wf(),
            r.buf == buf,
            r.margin == 0,
            r.skylines@ =~= seq![Skyline { x: 0, y: 0, w: buf.spec_width() }],
    {
        let (width, height) = buf.dimensions();
        let mut skylines = Vec::new();
        skylines.push(Skyline { x: 0, y: 0, w: width });

        SkylinePacker { buf, width, height, skylines, margin: 0 }
    }

    /// Lowest height at which a `w` by `h` rectangle can sit on the skyline
    /// starting at segment `i`.
    fn can_put(&self, i: usize, w: u32, h: u32) -> (r: Option<u32>)
        requires
            self.wf(),
            i < self.skylines@.len(),
            1 <= w,
            1 <= h,
            w + self.width <= u32::MAX,
            h + self.height <= u32::MAX,
        ensures
            r is Some <==> fits_at(
                self.skylines@,
                self.width as int,
                self.height as int,
                i as int,
                w as int,
                h as int,
            ),
            r matches Some(y) ==> y as int == span_max_y(
                self.skylines@,
                self.skylines@[i as int].x as int,
                self.skylines@[i as int].x + w,
            ),
    {
        let ghost s = self.skylines@;
        let ghost max_w = self.width as int;
        let ghost max_h = self.height as int;
        let ghost x0 = s[i as int].x as int;
        proof {
            lemma_seg_in_bounds(s, max_w, max_h, i as int);
        }
        let x = self.skylines[i].x;
        if x + w > self.width {
            proof {
                lemma_span_max_y_ub(s, x0, x0 + w, max_h);
            }
            return None;
        }
        let mut width_left = w;
        let mut j = i;
        let mut y = self.skylines[i].y;
        let n = self.skylines.len();
        proof {
            assert forall|k: int| 0 <= k < s.len() implies !crate::packer::skyline_packer::seg_overlaps(
                #[trigger] s[k],
                x0,
                x0,
            ) by {
                if k < i as int {
                    lemma_seg_order(s, k, i as int);
                } else if k > i as int {
                    lemma_seg_order(s, i as int, k);
                }
            }
            lemma_span_max_y_none(s, x0, x0);
        }
        loop
            invariant
                self.wf(),
                s == self.skylines@,
                n == s.len(),
                max_w == self.width as int,
                max_h == self.height as int,
                x0 == s[i as int].x as int,
                i <= j < s.len(),
                1 <= width_left <= w,
                1 <= w,
                1 <= h,
                w + max_w <= u32::MAX,
                h + max_h <= u32::MAX,
                x0 + w <= max_w,
                s[j as int].x == x0 + w - width_left,
                y as int == (if span_max_y(s, x0, s[j as int].x as int) > s[i as int].y {
                    span_max_y(s, x0, s[j as int].x as int)
                } else {
                    s[i as int].y as int
                }),
            decreases s.len() - j,
        {
            let ghost covered = s[j as int].x as int;
            if y < self.skylines[j].y {
                y = self.skylines[j].y;
            }
            proof {
                let m = if covered + s[j as int].w < x0 + w {
                    covered + s[j as int].w
                } else {
                    x0 + w
                };
                lemma_span_single(s, j as int, covered, m);
                lemma_span_max_y_split(s, x0, covered, m);
                lemma_seg_in_bounds(s, max_w, max_h, j as int);
                lemma_span_max_y_ub(s, x0, m, max_h);
                assert(s[i as int].y <= max_h);
            }
            if y + h > self.height {
                proof {
                    let m = if covered + s[j as int].w < x0 + w {
                        covered + s[j as int].w
                    } else {
                        x0 + w
                    };
                    lemma_span_max_y_split(s, x0, m, x0 + w);
                    lemma_span_max_y_nonneg(s, x0, m);
                    lemma_span_max_y_nonneg(s, m, x0 + w);
                    lemma_span_max_y_ge(s, x0, x0 + w, i as int);
                }
                return None;
            }
            if self.skylines[j].w >= width_left {
                proof {
                    assert(x0 + w <= covered + s[j as int].w);
                    lemma_span_max_y_ge(s, x0, x0 + w, i as int);
                }
                return Some(y);
            }
            width_left = width_left - self.skylines[j].w;
            proof {
                if j == s.len() - 1 {
                    assert(s[j as int].x + s[j as int].w == max_w);
                    assert(false);
                }
            }
            j = j + 1;
        }
    }

    /// Scan every segment as a candidate start for both orientations and
    /// keep the placement with the lowest bottom edge, tie-broken by the
    /// narrowest start segment.
    fn find_skyline(&self, w: u32, h: u32) -> (r: Option<(usize, Rect)>)
        requires
            self.wf(),
            1 <= w,
            1 <= h,
            w + self.width <= u32::MAX,
            h + self.height <= u32::MAX,
            w + self.height <= u32::MAX,
            h + self.width <= u32::MAX,
        ensures
            r is Some <==> exists|i: int, rw: int, rh: int|
                oriented_pair(true, w as int, h as int, rw, rh) && #[trigger] fits_at(
                    self.skylines@,
                    self.width as int,
                    self.height as int,
                    i,
                    rw,
                    rh,
                ),
            r matches Some((i, rect)) ==> {
                let s = self.skylines@;
                &&& i < s.len()
                &&& oriented_pair(true, w as int, h as int, rect.w as int, rect.h as int)
                &&& fits_at(
                    s,
                    self.width as int,
                    self.height as int,
                    i as int,
                    rect.w as int,
                    rect.h as int,
                )
                &&& rect.x == s[i as int].x
                &&& rect.y as int == span_max_y(s, s[i as int].x as int, s[i as int].x + rect.w)
                &&& min_bottom_on(
                    s,
                    self.width as int,
                    self.height as int,
                    true,
                    w as int,
                    h as int,
                    cand_bottom(s, i as int, rect.w as int, rect.h as int),
                )
            },
    {
        let ghost s = self.skylines@;
        let ghost max_w = self.width as int;
        let ghost max_h = self.height as int;
        let mut min_height = u32::MAX;
        let mut min_width = u32::MAX;
        let mut index: Option<usize> = None;
        let mut rect = Rect::new(0, 0, 0, 0);
        let n = self.skylines.len();
        let mut i: usize = 0;

        // keep the `min_height` as small as possible
        while i < n
            invariant
                self.wf(),
                s == self.skylines@,
                n == s.len(),
                max_w == self.width as int,
                max_h == self.height as int,
                i <= n,
                1 <= w,
                1 <= h,
                w + max_w <= u32::MAX,
                h + max_h <= u32::MAX,
                w + max_h <= u32::MAX,
                h + max_w <= u32::MAX,
                index matches Some(b) ==> {
                    &&& b < s.len()
                    &&& oriented_pair(true, w as int, h as int, rect.w as int, rect.h as int)
                    &&& fits_at(s, max_w, max_h, b as int, rect.w as int, rect.h as int)
                    &&& rect.x == s[b as int].x
                    &&& rect.y as int == span_max_y(s, s[b as int].x as int, s[b as int].x + rect.w)
                    &&& min_height as int == cand_bottom(s, b as int, rect.w as int, rect.h as int)
                        + 1
                    &&& min_width == s[b as int].w
                    &&& forall|j: int, sw: int, sh: int|
                        0 <= j < i && oriented_pair(true, w as int, h as int, sw, sh)
                            && #[trigger] fits_at(s, max_w, max_h, j, sw, sh) ==> cand_bottom(
                            s,
                            j,
                            sw,
                            sh,
                        ) + 1 >= min_height as int
                },
                index.is_none() ==> min_height == u32::MAX && min_width == u32::MAX,
                index.is_none() ==> forall|j: int, sw: int, sh: int|
                    0 <= j < i && oriented_pair(true, w as int, h as int, sw, sh)
                        ==> !#[trigger] fits_at(s, max_w, max_h, j, sw, sh),
            decreases n - i,
        {
            match self.can_put(i, w, h) {
                Some(y) => {
                    proof {
                        lemma_span_max_y_ub(s, s[i as int].x as int, s[i as int].x + w, max_h);
                        lemma_span_max_y_nonneg(s, s[i as int].x as int, s[i as int].x + w);
                    }
                    if y + h < min_height || (y + h == min_height && self.skylines[i].w
                        < min_width) {
                        min_height = y + h;
                        min_width = self.skylines[i].w;
                        index = Some(i);
                        rect = Rect { x: self.skylines[i].x, y, w, h };
                    }
                },
                _ => {},
            }

            match self.can_put(i, h, w) {
                Some(y) => {
                    proof {
                        lemma_span_max_y_ub(s, s[i as int].x as int, s[i as int].x + h, max_h);
                        lemma_span_max_y_nonneg(s, s[i as int].x as int, s[i as int].x + h);
                    }
                    if y + w < min_height || (y + w == min_height && self.skylines[i].w
                        < min_width) {
                        min_height = y + w;
                        min_width = self.skylines[i].w;
                        index = Some(i);
                        rect = Rect { x: self.skylines[i].x, y, w: h, h: w };
                    }
                },
                _ => {},
            }
            i = i + 1;
        }

        if index.is_some() {
            Some((index.unwrap(), rect))
        } else {
            None
        }
    }

    /// Insert the raised segment for a committed placement at `index`, then
    /// shorten or drop the old segments that the placement covers.
    fn split(&mut self, index: usize, rect: &Rect)
        requires
            old(self).wf(),
            index < old(self).skylines@.len(),
            rect.x == old(self).skylines@[index as int].x,
            1 <= rect.w,
            1 <= rect.h,
            rect.x + rect.w <= old(self).width,
            rect.y + rect.h <= old(self).height,
        ensures
            final(self).buf == old(self).buf,
            final(self).width == old(self).width,
            final(self).height == old(self).height,
            final(self).margin == old(self).margin,
            wf_seq(final(self).skylines@, old(self).width as int, old(self).height as int),
            forall|m: int|
                0 <= m < final(self).skylines@.len() ==> split_seg_ok(
                    old(self).skylines@,
                    *rect,
                    #[trigger] final(self).skylines@[m],
                ),
            forall|c: int|
                rect.x <= c < rect.x + rect.w ==> #[trigger] span_max_y(
                    final(self).skylines@,
                    c,
                    c + 1,
                ) == rect.y + rect.h,
            forall|c: int|
                (0 <= c < rect.x || rect.x + rect.w <= c < old(self).width)
                    ==> #[trigger] span_max_y(final(self).skylines@, c, c + 1) == span_max_y(
                    old(self).skylines@,
                    c,
                    c + 1,
                ),
    {
        let ghost s = self.skylines@;
        let ghost max_w = self.width as int;
        let ghost max_h = self.height as int;
        let ghost n_old = s.len() as int;
        let ghost rect_end: int = rect.x + rect.w;

        let pre_len = self.skylines.len();
        let skyline = Skyline { x: rect.x, y: rect.y + rect.h, w: rect.w };
        let ghost new_seg = skyline;

        assert(skyline.x + skyline.w <= max_w);
        assert(skyline.y <= max_h);

        self.skylines.insert(index, skyline);

        let i = index + 1;
        let ghost mut k: int = index as int;
        proof {
            assert(self.skylines@ =~= s.subrange(0, index as int) + seq![new_seg] + s.subrange(
                k,
                n_old,
            ));
        }
        loop
            invariant_except_break
                self.buf == old(self).buf,
                self.width == old(self).width,
                self.height == old(self).height,
                self.margin == old(self).margin,
                s == old(self).skylines@,
                max_w == old(self).width as int,
                max_h == old(self).height as int,
                n_old == s.len() as int,
                rect_end == rect.x + rect.w,
                wf_seq(s, max_w, max_h),
                index < s.len(),
                rect.x == s[index as int].x,
                1 <= rect.w,
                1 <= rect.h,
                rect.x + rect.w <= max_w,
                rect.y + rect.h <= max_h,
                new_seg == (Skyline { x: rect.x, y: (rect.y + rect.h) as u32, w: rect.w }),
                i == index + 1,
                index as int <= k <= n_old,
                self.skylines@ == s.subrange(0, index as int) + seq![new_seg] + s.subrange(
                    k,
                    n_old,
                ),
                k > index ==> s[k - 1].x + s[k - 1].w <= rect_end,
            ensures
                self.buf == old(self).buf,
                self.width == old(self).width,
                self.height == old(self).height,
                self.margin == old(self).margin,
                wf_seq(self.skylines@, old(self).width as int, old(self).height as int),
                forall|m: int|
                    0 <= m < self.skylines@.len() ==> split_seg_ok(
                        old(self).skylines@,
                        *rect,
                        #[trigger] self.skylines@[m],
                    ),
            decreases n_old - k,
        {
            if i >= self.skylines.len() {
                proof {
                    assert(self.skylines@.len() == index + 1 + (n_old - k));
                    assert(k == n_old);
                    assert(self.skylines@ =~= s.subrange(0, index as int) + seq![new_seg]
                        + s.subrange(k, n_old));
                    lemma_split_result(
                        s,
                        max_w,
                        max_h,
                        *rect,
                        new_seg,
                        k,
                        None,
                        self.skylines@,
                        index as int,
                    );
                }
                break;
            }
            proof {
                assert(self.skylines@.len() == index + 1 + (n_old - k));
                assert(k < n_old);
                assert(self.skylines@[i as int] == s[k]);
                assert(self.skylines@[index as int] == new_seg);
                if k > index {
                    lemma_seg_order(s, index as int, k);
                }
                lemma_seg_in_bounds(s, max_w, max_h, k);
            }
            assert(self.skylines@[i as int - 1].x <= self.skylines@[i as int].x);

            if self.skylines[i].x < self.skylines[i - 1].x + self.skylines[i - 1].w {
                let shrink = self.skylines[i - 1].x + self.skylines[i - 1].w
                    - self.skylines[i].x;
                proof {
                    assert(shrink == rect_end - s[k].x);
                }
                if self.skylines[i].w <= shrink {
                    self.skylines.remove(i);
                    proof {
                        assert(s[k].x + s[k].w <= rect_end);
                        k = k + 1;
                        assert(self.skylines@ =~= s.subrange(0, index as int) + seq![new_seg]
                            + s.subrange(k, n_old));
                    }
                } else {
                    let prev = self.skylines[i];
                    let updated = Skyline { x: prev.x + shrink, y: prev.y, w: prev.w - shrink };
                    let ghost hseg = updated;
                    self.skylines.remove(i);
                    self.skylines.insert(i, updated);
                    proof {
                        assert(hseg.x == rect_end);
                        assert(hseg.y == s[k].y);
                        assert(hseg.x + hseg.w == s[k].x + s[k].w);
                        assert(self.skylines@ =~= s.subrange(0, index as int) + seq![new_seg]
                            + seq![hseg] + s.subrange(k + 1, n_old));
                        lemma_split_result(
                            s,
                            max_w,
                            max_h,
                            *rect,
                            new_seg,
                            k,
                            Some(hseg),
                            self.skylines@,
                            index as int,
                        );
                    }
                    break;
                }
            } else {
                proof {
                    assert(s[k].x >= rect_end);
                    lemma_split_result(
                        s,
                        max_w,
                        max_h,
                        *rect,
                        new_seg,
                        k,
                        None,
                        self.skylines@,
                        index as int,
                    );
                }
                break;
            }
        }
        proof {
            lemma_split_profile(s, self.skylines@, max_w, max_h, *rect);
        }
    }

    /// Coalesce adjacent segments that share the same height.  On a list
    /// that is already minimal — such as the result of a previous call —
    /// nothing changes.
    fn merge(&mut self)
        requires
            old(self).wf(),
        ensures
            final(self).wf(),
            final(self).buf == old(self).buf,
            final(self).width == old(self).width,
            final(self).height == old(self).height,
            final(self).margin == old(self).margin,
            adjacent_heights_differ(final(self).skylines@),
            adjacent_heights_differ(old(self).skylines@) ==> final(self).skylines@ == old(
                self,
            ).skylines@,
            forall|c: int|
                0 <= c < old(self).width ==> #[trigger] span_max_y(
                    final(self).skylines@,
                    c,
                    c + 1,
                ) == span_max_y(old(self).skylines@, c, c + 1),
    {
        let ghost s0 = self.skylines@;
        let ghost max_w = self.width as int;
        let ghost max_h = self.height as int;
        let mut i: usize = 1;
        while i < self.skylines.len()
            invariant
                self.buf == old(self).buf,
                self.width == old(self).width,
                self.height == old(self).height,
                self.margin == old(self).margin,
                old(self).wf(),
                self.buf.wf(),
                max_w == self.width as int,
                max_h == self.height as int,
                wf_seq(self.skylines@, max_w, max_h),
                1 <= i <= self.skylines@.len(),
                forall|t: int|
                    0 <= t < i - 1 ==> self.skylines@[t].y != (#[trigger] self.skylines@[t
                        + 1]).y,
                adjacent_heights_differ(old(self).skylines@) ==> self.skylines@ == old(
                    self,
                ).skylines@,
                s0 == old(self).skylines@,
                forall|m: int, c: int|
                    0 <= m < self.skylines@.len() && #[trigger] col_in_seg(
                        self.skylines@[m],
                        c,
                    ) ==> exists|j: int|
                        0 <= j < s0.len() && #[trigger] col_in_seg(s0[j], c) && s0[j].y
                            == self.skylines@[m].y,
            decreases self.skylines@.len() * 2 - i,
        {
            let ghost v = self.skylines@;
            let ghost p: int = i as int - 1;
            if self.skylines[i - 1].y == self.skylines[i].y {
                proof {
                    lemma_seg_in_bounds(v, max_w, max_h, i as int);
                    assert(v[p + 1].x == v[p].x + v[p].w);
                }
                let prev = self.skylines[i - 1];
                let cur = self.skylines[i];
                let merged = Skyline { x: prev.x, y: prev.y, w: prev.w + cur.w };
                self.skylines.remove(i);
                self.skylines.remove(i - 1);
                self.skylines.insert(i - 1, merged);
                proof {
                    let n2 = v.len() as int;
                    let v2 = self.skylines@;
                    assert(v2 =~= v.subrange(0, p) + seq![merged] + v.subrange(p + 2, n2));
                    assert(v2.len() == n2 - 1);
                    assert(forall|t: int| 0 <= t < p ==> #[trigger] v2[t] == v[t]);
                    assert(v2[p] == merged);
                    assert(forall|t: int| p < t < v2.len() ==> #[trigger] v2[t] == v[t + 1]);
                    assert forall|t: int|
                        0 <= t < v2.len() - 1 implies #[trigger] v2[t + 1].x == v2[t].x
                        + v2[t].w by {
                        if t + 1 < p {
                            assert(v2[t] == v[t] && v2[t + 1] == v[t + 1]);
                            assert(v[t + 1].x == v[t].x + v[t].w);
                        } else if t + 1 == p {
                            assert(v2[t] == v[t] && v2[t + 1] == merged);
                            assert(v[t + 1].x == v[t].x + v[t].w);
                        } else if t == p {
                            assert(v2[t] == merged && v2[t + 1] == v[t + 2]);
                            assert(v[p + 2].x == v[p + 1].x + v[p + 1].w);
                        } else {
                            assert(v2[t] == v[t + 1] && v2[t + 1] == v[t + 2]);
                            assert(v[t + 2].x == v[t + 1].x + v[t + 1].w);
                        }
                    }
                    assert(v2[0].x == 0) by {
                        if p > 0 {
                            assert(v2[0] == v[0]);
                        }
                    }
                    assert(v2[v2.len() - 1].x + v2[v2.len() - 1].w == max_w) by {
                        if p + 1 < v2.len() {
                            assert(v2[v2.len() - 1] == v[n2 - 1]);
                        } else {
                            assert(v2[v2.len() - 1] == merged);
                            assert(v[n2 - 1] == v[p + 1]);
                        }
                    }
                    assert forall|t: int|
                        0 <= t < v2.len() implies 1 <= (#[trigger] v2[t]).w && v2[t].y
                        <= max_h by {
                        if t < p {
                            assert(v2[t] == v[t]);
                        } else if t == p {
                            assert(v2[t] == merged);
                        } else {
                            assert(v2[t] == v[t + 1]);
                        }
                    }
                    assert(wf_seq(v2, max_w, max_h));
                    assert forall|m: int, c: int|
                        0 <= m < v2.len() && #[trigger] col_in_seg(v2[m], c) implies exists|j: int|
                        0 <= j < s0.len() && #[trigger] col_in_seg(s0[j], c) && s0[j].y
                            == v2[m].y by {
                        if m < p {
                            assert(col_in_seg(v[m], c) && v[m].y == v2[m].y);
                        } else if m == p {
                            if c < merged.x + prev.w {
                                assert(col_in_seg(v[p], c) && v[p].y == v2[m].y);
                            } else {
                                assert(col_in_seg(v[p + 1], c) && v[p + 1].y == v2[m].y);
                            }
                        } else {
                            assert(col_in_seg(v[m + 1], c) && v[m + 1].y == v2[m].y);
                        }
                    }
                }
                i = i - 1;
            }
            i = i + 1;
        }
        proof {
            lemma_same_cover_profile(s0, self.skylines@, max_w, max_h);
        }
    }
}

impl<B: Buffer2d> Packer for SkylinePacker<B> {
    type Buffer = B;

    open spec fn wf(&self) -> bool {
        SkylinePacker::wf(*self)
    }

    /// The request's sides, inflated by the margin, denote real area and
    /// stay representable in either orientation.
    open spec fn req_ok(&self, w: int, h: int) -> bool {
        &&& 1 <= w + self.margin
        &&& 1 <= h + self.margin
        &&& w + self.margin + self.width <= u32::MAX
        &&& h + self.margin + self.height <= u32::MAX
        &&& w + self.margin + self.height <= u32::MAX
        &&& h + self.margin + self.width <= u32::MAX
        &&& self.margin <= w + self.margin
        &&& self.margin <= h + self.margin
    }

    /// The buffer denotes real width, is consistent and wholly writable.
    open spec fn new_req(buf: &B) -> bool {
        &&& buf.wf()
        &&& 1 <= buf.spec_width()
        &&& forall|a: int, b: int|
            0 <= a < buf.spec_width() && 0 <= b < buf.spec_height() ==> buf.settable(a, b)
    }

    fn new(buf: B) -> Self {
        SkylinePacker::new(buf)
    }

    fn buf(&self) -> (r: &B)
        ensures
            *r == self.buf,
    {
        &self.buf
    }

    fn pack<O: Buffer2d<Pixel = B::Pixel>>(&mut self, buf: &O) -> (r: Option<Rect>)
        ensures
            final(self).buf.spec_width() == old(self).buf.spec_width(),
            final(self).buf.spec_height() == old(self).buf.spec_height(),
            final(self).margin == old(self).margin,
            r is Some <==> exists|i: int, rw: int, rh: int|
                oriented_pair(
                    true,
                    buf.spec_width() + old(self).margin,
                    buf.spec_height() + old(self).margin,
                    rw,
                    rh,
                ) && #[trigger] fits_at(
                    old(self).skylines@,
                    old(self).width as int,
                    old(self).height as int,
                    i,
                    rw,
                    rh,
                ),
            r is None ==> *final(self) == *old(self),
            r matches Some(rect) ==> {
                let w = buf.spec_width() + old(self).margin;
                let h = buf.spec_height() + old(self).margin;
                &&& ((rect.w + old(self).margin == w && rect.h + old(self).margin == h) || (
                rect.w + old(self).margin == h && rect.h + old(self).margin == w))
                &&& rect.x + rect.w <= old(self).width
                &&& rect.y + rect.h <= old(self).height
                &&& (rect.w + old(self).margin == w ==> forall|a: int, b: int|
                    0 <= a < old(self).buf.spec_width() && 0 <= b < old(self).buf.spec_height()
                        ==> #[trigger] final(self).buf.pixel_at(a, b) == (if rect.x <= a < rect.x
                        + buf.spec_width() && rect.y <= b < rect.y + buf.spec_height()
                        && buf.pixel_at(a - rect.x, b - rect.y) is Some {
                        buf.pixel_at(a - rect.x, b - rect.y)
                    } else {
                        old(self).buf.pixel_at(a, b)
                    }))
                &&& (rect.w + old(self).margin != w ==> forall|a: int, b: int|
                    0 <= a < old(self).buf.spec_width() && 0 <= b < old(self).buf.spec_height()
                        ==> #[trigger] final(self).buf.pixel_at(a, b) == (if rect.x <= a < rect.x
                        + buf.spec_height() && rect.y <= b < rect.y + buf.spec_width()
                        && buf.pixel_at(b - rect.y, rect.x + buf.spec_height() - 1 - a) is Some {
                        buf.pixel_at(b - rect.y, rect.x + buf.spec_height() - 1 - a)
                    } else {
                        old(self).buf.pixel_at(a, b)
                    }))
            },
    {
        let (mut width, mut height) = buf.dimensions();
        width = width + self.margin;
        height = height + self.margin;

        match self.find_skyline(width, height) {
            Some((i, mut rect)) => {
                if width == rect.w {
                    patch(&mut self.buf, rect.x, rect.y, buf);
                } else {
                    patch_rotated(&mut self.buf, rect.x, rect.y, buf);
                }

                self.split(i, &rect);
                self.merge();

                rect.w = rect.w - self.margin;
                rect.h = rect.h - self.margin;
                Some(rect)
            },
            _ => None,
        }
    }

    fn set_margin(&mut self, val: u32)
        ensures
            final(self).buf == old(self).buf,
            final(self).skylines == old(self).skylines,
            final(self).margin == val,
    {
        self.margin = val;
    }

    fn into_buf(self) -> (r: B)
        ensures
            r == self.buf,
    {
        self.buf
    }
}

} // verus!
