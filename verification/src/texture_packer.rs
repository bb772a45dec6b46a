//! Packs textures into a single texture atlas.

use vstd::prelude::*;
use crate::frame::Frame;
use crate::packer::Packer;
use crate::packer::skyline_packer::{lemma_can_place_monotone, SkylinePacker};
use crate::rect::Rect;
use crate::texture::sub_texture::SubTexture;
use crate::texture::{
    opt_transparent, spec_column_transparent, spec_has_opaque_pixel, spec_row_transparent, Pixel,
    Texture,
};
use crate::texture_packer_config::TexturePackerConfig;

verus! {

/// Result of a packing operation.
pub type PackResult<T> = Result<T, PackError>;

/// Failures a packing operation can report.
#[derive(Debug, Copy, Clone, PartialEq, Eq, Structural)]
pub enum PackError {
    /// The texture does not fit into the atlas.
    TextureTooLargeToFitIntoAtlas,
}

/// The first recorded frame with the given key, scanning in storage order.
pub open spec fn find_frame(frames: Seq<Frame>, key: Seq<char>) -> Option<Frame>
    decreases frames.len(),
{
    if frames.len() == 0 {
        None
    } else if frames[0].key@ == key {
        Some(frames[0])
    } else {
        find_frame(frames.drop_first(), key)
    }
}

/// The first stored texture with the given key, scanning in storage order.
pub open spec fn find_texture<'a, T>(
    ts: Seq<(String, SubTexture<'a, T>)>,
    key: Seq<char>,
) -> Option<SubTexture<'a, T>>
    decreases ts.len(),
{
    if ts.len() == 0 {
        None
    } else if ts[0].0@ == key {
        Some(ts[0].1)
    } else {
        find_texture(ts.drop_first(), key)
    }
}

/// No two recorded frames share a key.
pub open spec fn frame_keys_unique(frames: Seq<Frame>) -> bool {
    forall|i: int, j: int|
        0 <= i < frames.len() && 0 <= j < frames.len() && i != j ==> (#[trigger] frames[i]).key@
            != (#[trigger] frames[j]).key@
}

/// No two stored textures share a key.
pub open spec fn texture_keys_unique<'a, T>(ts: Seq<(String, SubTexture<'a, T>)>) -> bool {
    forall|i: int, j: int|
        0 <= i < ts.len() && 0 <= j < ts.len() && i != j ==> (#[trigger] ts[i]).0@
            != (#[trigger] ts[j]).0@
}

/// Leftmost column at or right of `x` that holds an opaque pixel; the width
/// when there is none.
pub open spec fn first_opaque_col_from<T: Texture + ?Sized>(t: &T, x: int) -> int
    decreases t.spec_width() - x when 0 <= x <= t.spec_width()
{
    if x >= t.spec_width() {
        x
    } else if !spec_column_transparent(t, x) {
        x
    } else {
        first_opaque_col_from(t, x + 1)
    }
}

/// Rightmost column at or left of `x` that holds an opaque pixel; `-1` when
/// there is none.
pub open spec fn last_opaque_col_from<T: Texture + ?Sized>(t: &T, x: int) -> int
    decreases x + 1 when -1 <= x
{
    if x < 0 {
        x
    } else if !spec_column_transparent(t, x) {
        x
    } else {
        last_opaque_col_from(t, x - 1)
    }
}

/// Topmost row at or below `y` that holds an opaque pixel; the height when
/// there is none.
pub open spec fn first_opaque_row_from<T: Texture + ?Sized>(t: &T, y: int) -> int
    decreases t.spec_height() - y when 0 <= y <= t.spec_height()
{
    if y >= t.spec_height() {
        y
    } else if !spec_row_transparent(t, y) {
        y
    } else {
        first_opaque_row_from(t, y + 1)
    }
}

/// Bottommost row at or above `y` that holds an opaque pixel; `-1` when
/// there is none.
pub open spec fn last_opaque_row_from<T: Texture + ?Sized>(t: &T, y: int) -> int
    decreases y + 1 when -1 <= y
{
    if y < 0 {
        y
    } else if !spec_row_transparent(t, y) {
        y
    } else {
        last_opaque_row_from(t, y - 1)
    }
}

/// The bounding box of the texture's opaque pixels, inclusive on all sides.
pub open spec fn spec_trim_rect<T: Texture + ?Sized>(t: &T) -> Rect {
    Rect::spec_between(
        first_opaque_col_from(t, 0),
        first_opaque_row_from(t, 0),
        last_opaque_col_from(t, t.spec_width() - 1),
        last_opaque_row_from(t, t.spec_height() - 1),
    )
}

/// An opaque column at or right of `x` bounds the left scan.
proof fn lemma_first_col_le<T: Texture + ?Sized>(t: &T, x: int, cw: int)
    requires
        0 <= x <= cw < t.spec_width(),
        !spec_column_transparent(t, cw),
    ensures
        first_opaque_col_from(t, x) <= cw,
    decreases cw - x,
{
    if x < cw && spec_column_transparent(t, x) {
        lemma_first_col_le(t, x + 1, cw);
    }
}

/// An opaque column at or left of `x` bounds the right scan.
proof fn lemma_last_col_ge<T: Texture + ?Sized>(t: &T, x: int, cw: int)
    requires
        0 <= cw <= x < t.spec_width(),
        !spec_column_transparent(t, cw),
    ensures
        last_opaque_col_from(t, x) >= cw,
    decreases x - cw,
{
    if x > cw && spec_column_transparent(t, x) {
        lemma_last_col_ge(t, x - 1, cw);
    }
}

/// An opaque row at or below `y` bounds the top scan.
proof fn lemma_first_row_le<T: Texture + ?Sized>(t: &T, y: int, rw: int)
    requires
        0 <= y <= rw < t.spec_height(),
        !spec_row_transparent(t, rw),
    ensures
        first_opaque_row_from(t, y) <= rw,
    decreases rw - y,
{
    if y < rw && spec_row_transparent(t, y) {
        lemma_first_row_le(t, y + 1, rw);
    }
}

/// An opaque row at or above `y` bounds the bottom scan.
proof fn lemma_last_row_ge<T: Texture + ?Sized>(t: &T, y: int, rw: int)
    requires
        0 <= rw <= y < t.spec_height(),
        !spec_row_transparent(t, rw),
    ensures
        last_opaque_row_from(t, y) >= rw,
    decreases y - rw,
{
    if y > rw && spec_row_transparent(t, y) {
        lemma_last_row_ge(t, y - 1, rw);
    }
}

/// The columns left of the left scan's result are all transparent, and the
/// result is an opaque column when one exists.
proof fn lemma_first_col_props<T: Texture + ?Sized>(t: &T, x: int)
    requires
        0 <= x <= t.spec_width(),
    ensures
        x <= first_opaque_col_from(t, x) <= t.spec_width(),
        forall|c: int|
            x <= c < first_opaque_col_from(t, x) ==> spec_column_transparent(t, c),
        first_opaque_col_from(t, x) < t.spec_width() ==> !spec_column_transparent(
            t,
            first_opaque_col_from(t, x),
        ),
    decreases t.spec_width() - x,
{
    if x < t.spec_width() && spec_column_transparent(t, x) {
        lemma_first_col_props(t, x + 1);
    }
}

/// The columns right of the right scan's result are all transparent, and the
/// result is an opaque column when one exists.
proof fn lemma_last_col_props<T: Texture + ?Sized>(t: &T, x: int)
    requires
        -1 <= x,
    ensures
        -1 <= last_opaque_col_from(t, x) <= x,
        forall|c: int| last_opaque_col_from(t, x) < c <= x ==> spec_column_transparent(t, c),
        last_opaque_col_from(t, x) >= 0 ==> !spec_column_transparent(
            t,
            last_opaque_col_from(t, x),
        ),
    decreases x + 1,
{
    if x >= 0 && spec_column_transparent(t, x) {
        lemma_last_col_props(t, x - 1);
    }
}

/// The rows above the top scan's result are all transparent, and the result
/// is an opaque row when one exists.
proof fn lemma_first_row_props<T: Texture + ?Sized>(t: &T, y: int)
    requires
        0 <= y <= t.spec_height(),
    ensures
        y <= first_opaque_row_from(t, y) <= t.spec_height(),
        forall|c: int| y <= c < first_opaque_row_from(t, y) ==> spec_row_transparent(t, c),
        first_opaque_row_from(t, y) < t.spec_height() ==> !spec_row_transparent(
            t,
            first_opaque_row_from(t, y),
        ),
    decreases t.spec_height() - y,
{
    if y < t.spec_height() && spec_row_transparent(t, y) {
        lemma_first_row_props(t, y + 1);
    }
}

/// The rows below the bottom scan's result are all transparent, and the
/// result is an opaque row when one exists.
proof fn lemma_last_row_props<T: Texture + ?Sized>(t: &T, y: int)
    requires
        -1 <= y,
    ensures
        -1 <= last_opaque_row_from(t, y) <= y,
        forall|c: int| last_opaque_row_from(t, y) < c <= y ==> spec_row_transparent(t, c),
        last_opaque_row_from(t, y) >= 0 ==> !spec_row_transparent(t, last_opaque_row_from(t, y)),
    decreases y + 1,
{
    if y >= 0 && spec_row_transparent(t, y) {
        lemma_last_row_props(t, y - 1);
    }
}

/// A texture with an opaque pixel has an opaque column and an opaque row.
proof fn lemma_opaque_witness<T: Texture + ?Sized>(t: &T) -> (r: (int, int))
    requires
        spec_has_opaque_pixel(t),
    ensures
        0 <= r.0 < t.spec_width(),
        0 <= r.1 < t.spec_height(),
        !spec_column_transparent(t, r.0),
        !spec_row_transparent(t, r.1),
{
    let (px, py) = choose|px: int, py: int|
        0 <= px < t.spec_width() && 0 <= py < t.spec_height() && !opt_transparent(
            #[trigger] t.pixel_at(px, py),
        );
    (px, py)
}

/// Scan the texture's fully transparent border columns and rows from each
/// edge inward and return the inclusive bounding box of what remains.
pub fn trim_texture<T: Texture>(texture: &T) -> (r: Rect)
    requires
        texture.wf(),
        1 <= texture.spec_width(),
        1 <= texture.spec_height(),
        spec_has_opaque_pixel(texture),
    ensures
        r == spec_trim_rect(texture),
        1 <= r.w,
        1 <= r.h,
        r.x + r.w <= texture.spec_width(),
        r.y + r.h <= texture.spec_height(),
        forall|c: int| 0 <= c < r.x ==> spec_column_transparent(texture, c),
        forall|c: int| r.x + r.w <= c < texture.spec_width() ==> spec_column_transparent(texture, c),
        !spec_column_transparent(texture, r.x as int),
        !spec_column_transparent(texture, r.x + r.w - 1),
        forall|c: int| 0 <= c < r.y ==> spec_row_transparent(texture, c),
        forall|c: int| r.y + r.h <= c < texture.spec_height() ==> spec_row_transparent(texture, c),
        !spec_row_transparent(texture, r.y as int),
        !spec_row_transparent(texture, r.y + r.h - 1),
{
    let ghost (cw, rw) = lemma_opaque_witness(texture);
    let w = texture.width();
    let h = texture.height();

    let mut x1: u32 = 0;
    let mut x: u32 = 0;
    while x < w
        invariant
            texture.wf(),
            w == texture.spec_width(),
            0 <= cw < w,
            !spec_column_transparent(texture, cw),
            x <= w,
            x1 == x,
            first_opaque_col_from(texture, 0) == first_opaque_col_from(texture, x as int),
        ensures
            x1 as int == first_opaque_col_from(texture, 0),
        decreases w - x,
    {
        if texture.is_column_transparent(x) {
            proof {
                assert(spec_column_transparent(texture, x as int));
                assert(first_opaque_col_from(texture, x as int) == first_opaque_col_from(
                    texture,
                    x as int + 1,
                ));
            }
            x1 = x + 1;
        } else {
            proof {
                assert(!spec_column_transparent(texture, x as int));
                assert(first_opaque_col_from(texture, x as int) == x as int);
            }
            break;
        }
        x = x + 1;
    }
    proof {
        lemma_first_col_le(texture, 0, cw);
    }

    let mut x2: u32 = w - 1;
    let mut x: u32 = 0;
    while x < w
        invariant
            texture.wf(),
            w == texture.spec_width(),
            0 <= cw < w,
            !spec_column_transparent(texture, cw),
            x < w,
            x2 as int == w - 1 - x,
            cw <= x2,
            last_opaque_col_from(texture, w - 1) == last_opaque_col_from(texture, x2 as int),
        ensures
            x2 as int == last_opaque_col_from(texture, w - 1),
            cw <= x2,
        decreases w - x,
    {
        let xx = w - x - 1;
        if texture.is_column_transparent(xx) {
            proof {
                assert(spec_column_transparent(texture, xx as int));
                assert(cw < xx);
                assert(last_opaque_col_from(texture, xx as int) == last_opaque_col_from(
                    texture,
                    xx as int - 1,
                ));
            }
            x2 = xx - 1;
        } else {
            proof {
                assert(!spec_column_transparent(texture, xx as int));
                assert(last_opaque_col_from(texture, xx as int) == xx as int);
            }
            break;
        }
        x = x + 1;
    }

    let mut y1: u32 = 0;
    let mut y: u32 = 0;
    while y < h
        invariant
            texture.wf(),
            h == texture.spec_height(),
            0 <= rw < h,
            !spec_row_transparent(texture, rw),
            y <= h,
            y1 == y,
            first_opaque_row_from(texture, 0) == first_opaque_row_from(texture, y as int),
        ensures
            y1 as int == first_opaque_row_from(texture, 0),
        decreases h - y,
    {
        if texture.is_row_transparent(y) {
            proof {
                assert(spec_row_transparent(texture, y as int));
                assert(first_opaque_row_from(texture, y as int) == first_opaque_row_from(
                    texture,
                    y as int + 1,
                ));
            }
            y1 = y + 1;
        } else {
            proof {
                assert(!spec_row_transparent(texture, y as int));
                assert(first_opaque_row_from(texture, y as int) == y as int);
            }
            break;
        }
        y = y + 1;
    }
    proof {
        lemma_first_row_le(texture, 0, rw);
    }

    let mut y2: u32 = h - 1;
    let mut y: u32 = 0;
    while y < h
        invariant
            texture.wf(),
            h == texture.spec_height(),
            0 <= rw < h,
            !spec_row_transparent(texture, rw),
            y < h,
            y2 as int == h - 1 - y,
            rw <= y2,
            last_opaque_row_from(texture, h - 1) == last_opaque_row_from(texture, y2 as int),
        ensures
            y2 as int == last_opaque_row_from(texture, h - 1),
            rw <= y2,
        decreases h - y,
    {
        let yy = h - y - 1;
        if texture.is_row_transparent(yy) {
            proof {
                assert(spec_row_transparent(texture, yy as int));
                assert(rw < yy);
                assert(last_opaque_row_from(texture, yy as int) == last_opaque_row_from(
                    texture,
                    yy as int - 1,
                ));
            }
            y2 = yy - 1;
        } else {
            proof {
                assert(!spec_row_transparent(texture, yy as int));
                assert(last_opaque_row_from(texture, yy as int) == yy as int);
            }
            break;
        }
        y = y + 1;
    }

    proof {
        lemma_first_col_props(texture, 0);
        lemma_last_col_props(texture, w - 1);
        lemma_first_row_props(texture, 0);
        lemma_last_row_props(texture, h - 1);
        assert(x1 <= cw <= x2);
        assert(y1 <= rw <= y2);
    }
    Rect::new_with_points(x1, y1, x2, y2)
}

/// The frame is the placed rectangle `p` with the border padding added to
/// its position and the inter-frame padding and extrusion taken off its size.
pub open spec fn frame_from_placed(f: Frame, p: Rect, config: TexturePackerConfig) -> bool {
    let infl = config.spec_inflation();
    let bp = config.border_padding as int;
    &&& f.frame.x == p.x + bp
    &&& f.frame.y == p.y + bp
    &&& f.frame.w == p.w - infl
    &&& f.frame.h == p.h - infl
    &&& infl + 1 <= p.w
    &&& infl + 1 <= p.h
}

/// Some rectangle the tracker placed gave rise to this frame.
pub open spec fn frame_placed_in(f: Frame, placed: Seq<Rect>, config: TexturePackerConfig) -> bool {
    exists|i: int| 0 <= i < placed.len() && frame_from_placed(f, #[trigger] placed[i], config)
}

/// Left edge of the frame's lookup zone, the frame inflated by the extrusion
/// on every side and clamped at the atlas origin.
pub open spec fn zone_x(f: Frame, e: int) -> int {
    if f.frame.x >= e {
        f.frame.x - e
    } else {
        0
    }
}

/// Top edge of the frame's lookup zone.
pub open spec fn zone_y(f: Frame, e: int) -> int {
    if f.frame.y >= e {
        f.frame.y - e
    } else {
        0
    }
}

/// The point lies in the frame's lookup zone.
pub open spec fn in_zone(f: Frame, e: int, px: int, py: int) -> bool {
    &&& zone_x(f, e) <= px < zone_x(f, e) + f.frame.w + 2 * e
    &&& zone_y(f, e) <= py < zone_y(f, e) + f.frame.h + 2 * e
}

/// The point lies in the frame proper, without the extrusion margin.
pub open spec fn in_proper(f: Frame, px: int, py: int) -> bool {
    &&& f.frame.x <= px < f.frame.x + f.frame.w
    &&& f.frame.y <= py < f.frame.y + f.frame.h
}

/// No point of `f1` proper lies in `f2`'s lookup zone.
pub open spec fn proper_excludes(f1: Frame, f2: Frame, e: int) -> bool {
    forall|qx: int, qy: int| in_proper(f1, qx, qy) ==> !#[trigger] in_zone(f2, e, qx, qy)
}

/// Frames made from disjoint placed rectangles keep even their lookup zones
/// away from each other's proper area.
proof fn lemma_proper_excludes(
    f1: Frame,
    f2: Frame,
    p1: Rect,
    p2: Rect,
    config: TexturePackerConfig,
)
    requires
        config.config_ok(),
        p1.spec_disjoint(p2),
        frame_from_placed(f1, p1, config),
        frame_from_placed(f2, p2, config),
    ensures
        proper_excludes(f1, f2, config.texture_extrusion as int),
{
    let e = config.texture_extrusion as int;
    let pad = config.texture_padding as int;
    let bp = config.border_padding as int;
    assert forall|qx: int, qy: int| in_proper(f1, qx, qy) implies !in_zone(f2, e, qx, qy) by {
        if p1.x + p1.w <= p2.x {
            assert(qx < p1.x + p1.w + bp - pad - 2 * e);
            if f2.frame.x >= e {
                assert(zone_x(f2, e) == p2.x + bp - e);
            } else {
                assert(qx < 0);
            }
        } else if p2.x + p2.w <= p1.x {
            assert(qx >= p1.x + bp);
            assert(zone_x(f2, e) + f2.frame.w + 2 * e <= p2.x + p2.w + bp);
        } else if p1.y + p1.h <= p2.y {
            assert(qy < p1.y + p1.h + bp - pad - 2 * e);
            if f2.frame.y >= e {
                assert(zone_y(f2, e) == p2.y + bp - e);
            } else {
                assert(qy < 0);
            }
        } else {
            assert(p2.y + p2.h <= p1.y);
            assert(qy >= p1.y + bp);
            assert(zone_y(f2, e) + f2.frame.h + 2 * e <= p2.y + p2.h + bp);
        }
    }
}

/// Two frame lists that agree on which entries carry `key`, and on those
/// entries' values, agree on the lookup for `key`.
proof fn lemma_find_frame_agree(s1: Seq<Frame>, s2: Seq<Frame>, key: Seq<char>)
    requires
        s1.len() == s2.len(),
        forall|j: int|
            0 <= j < s1.len() ==> (((#[trigger] s1[j]).key@ == key) <==> ((#[trigger] s2[j]).key@
                == key)),
        forall|j: int| 0 <= j < s1.len() && (#[trigger] s1[j]).key@ == key ==> s1[j] == s2[j],
    ensures
        find_frame(s1, key) == find_frame(s2, key),
    decreases s1.len(),
{
    if s1.len() > 0 {
        assert(s1[0] == s1.first());
        if s1[0].key@ != key {
            assert(forall|j: int|
                0 <= j < s1.drop_first().len() ==> (((#[trigger] s1.drop_first()[j]).key@ == key)
                    <==> ((#[trigger] s2.drop_first()[j]).key@ == key)));
            assert(forall|j: int|
                0 <= j < s1.drop_first().len() && (#[trigger] s1.drop_first()[j]).key@ == key
                    ==> s1.drop_first()[j] == s2.drop_first()[j]);
            lemma_find_frame_agree(s1.drop_first(), s2.drop_first(), key);
        }
    }
}

/// A match behind an unmatched prefix is what the lookup returns.
proof fn lemma_find_frame_hit(s: Seq<Frame>, key: Seq<char>, i: int)
    requires
        0 <= i < s.len(),
        forall|j: int| 0 <= j < i ==> (#[trigger] s[j]).key@ != key,
        s[i].key@ == key,
    ensures
        find_frame(s, key) == Some(s[i]),
    decreases i,
{
    if i > 0 {
        lemma_find_frame_hit(s.drop_first(), key, i - 1);
        assert(s.drop_first()[i - 1] == s[i]);
    }
}

/// With no match anywhere the lookup returns nothing.
proof fn lemma_find_frame_none(s: Seq<Frame>, key: Seq<char>)
    requires
        forall|j: int| 0 <= j < s.len() ==> (#[trigger] s[j]).key@ != key,
    ensures
        find_frame(s, key) == None::<Frame>,
    decreases s.len(),
{
    if s.len() > 0 {
        lemma_find_frame_none(s.drop_first(), key);
    }
}

/// Appending an entry changes only the lookup of its own key, and that only
/// when the key was absent.
proof fn lemma_find_frame_push(s: Seq<Frame>, f: Frame, key: Seq<char>)
    ensures
        find_frame(s.push(f), key) == match find_frame(s, key) {
            Some(x) => Some(x),
            None => if f.key@ == key {
                Some(f)
            } else {
                None
            },
        },
    decreases s.len(),
{
    if s.len() == 0 {
        assert(s.push(f)[0] == f);
        assert(s.push(f).len() == 1);
        if f.key@ != key {
            assert(find_frame(s.push(f), key) == find_frame(s.push(f).drop_first(), key));
            assert(s.push(f).drop_first().len() == 0);
        }
    } else {
        assert(s.push(f)[0] == s[0]);
        if s[0].key@ != key {
            assert(s.push(f).drop_first() =~= s.drop_first().push(f));
            lemma_find_frame_push(s.drop_first(), f, key);
        }
    }
}

/// Tuple-list analogue of `lemma_find_frame_agree`.
proof fn lemma_find_texture_agree<'a, T>(
    s1: Seq<(String, SubTexture<'a, T>)>,
    s2: Seq<(String, SubTexture<'a, T>)>,
    key: Seq<char>,
)
    requires
        s1.len() == s2.len(),
        forall|j: int|
            0 <= j < s1.len() ==> (((#[trigger] s1[j]).0@ == key) <==> ((#[trigger] s2[j]).0@
                == key)),
        forall|j: int| 0 <= j < s1.len() && (#[trigger] s1[j]).0@ == key ==> s1[j] == s2[j],
    ensures
        find_texture(s1, key) == find_texture(s2, key),
    decreases s1.len(),
{
    if s1.len() > 0 {
        if s1[0].0@ != key {
            assert(forall|j: int|
                0 <= j < s1.drop_first().len() ==> (((#[trigger] s1.drop_first()[j]).0@ == key)
                    <==> ((#[trigger] s2.drop_first()[j]).0@ == key)));
            assert(forall|j: int|
                0 <= j < s1.drop_first().len() && (#[trigger] s1.drop_first()[j]).0@ == key
                    ==> s1.drop_first()[j] == s2.drop_first()[j]);
            lemma_find_texture_agree(s1.drop_first(), s2.drop_first(), key);
        }
    }
}

/// Tuple-list analogue of `lemma_find_frame_hit`.
proof fn lemma_find_texture_hit<'a, T>(s: Seq<(String, SubTexture<'a, T>)>, key: Seq<char>, i: int)
    requires
        0 <= i < s.len(),
        forall|j: int| 0 <= j < i ==> (#[trigger] s[j]).0@ != key,
        s[i].0@ == key,
    ensures
        find_texture(s, key) == Some(s[i].1),
    decreases i,
{
    if i > 0 {
        lemma_find_texture_hit(s.drop_first(), key, i - 1);
        assert(s.drop_first()[i - 1] == s[i]);
    }
}

/// Tuple-list analogue of `lemma_find_frame_push`.
proof fn lemma_find_texture_push<'a, T>(
    s: Seq<(String, SubTexture<'a, T>)>,
    entry: (String, SubTexture<'a, T>),
    key: Seq<char>,
)
    ensures
        find_texture(s.push(entry), key) == match find_texture(s, key) {
            Some(x) => Some(x),
            None => if entry.0@ == key {
                Some(entry.1)
            } else {
                None
            },
        },
    decreases s.len(),
{
    if s.len() == 0 {
        assert(s.push(entry)[0] == entry);
        assert(s.push(entry).len() == 1);
        if entry.0@ != key {
            assert(find_texture(s.push(entry), key) == find_texture(
                s.push(entry).drop_first(),
                key,
            ));
            assert(s.push(entry).drop_first().len() == 0);
        }
    } else {
        assert(s.push(entry)[0] == s[0]);
        if s[0].0@ != key {
            assert(s.push(entry).drop_first() =~= s.drop_first().push(entry));
            lemma_find_texture_push(s.drop_first(), entry, key);
        }
    }
}

/// Record `frame` under its key, overwriting any prior frame with the same
/// key.
fn upsert_frame(frames: &mut Vec<Frame>, frame: Frame)
    requires
        frame_keys_unique(old(frames)@),
    ensures
        frame_keys_unique(final(frames)@),
        find_frame(final(frames)@, frame.key@) == Some(frame),
        forall|k: Seq<char>|
            k != frame.key@ ==> find_frame(final(frames)@, k) == find_frame(old(frames)@, k),
        forall|i: int|
            0 <= i < final(frames)@.len() ==> final(frames)@[i] == frame || exists|j: int|
                0 <= j < old(frames)@.len() && final(frames)@[i] == #[trigger] old(frames)@[j],
{
    let ghost s0 = frames@;
    let n = frames.len();
    let mut i: usize = 0;
    while i < n
        invariant
            s0 == frames@,
            s0 == old(frames)@,
            frame_keys_unique(s0),
            n == s0.len(),
            i <= n,
            forall|j: int| 0 <= j < i ==> (#[trigger] s0[j]).key@ != frame.key@,
        decreases n - i,
    {
        if frames[i].key == frame.key {
            frames[i] = frame;
            proof {
                let s1 = frames@;
                let p: int = i as int;
                assert(s1 == s0.update(p, frame));
                assert(s0[p].key@ == frame.key@);
                assert forall|a: int, b: int|
                    0 <= a < s1.len() && 0 <= b < s1.len() && a != b implies (
                #[trigger] s1[a]).key@ != (#[trigger] s1[b]).key@ by {
                    if a == p {
                        assert(s1[a] == frame);
                        assert(s1[b] == s0[b]);
                        assert(0 <= p < s0.len() && 0 <= b < s0.len() && p != b);
                        assert((s0[p]).key@ != (s0[b]).key@);
                    } else if b == p {
                        assert(s1[b] == frame);
                        assert(s1[a] == s0[a]);
                        assert(0 <= p < s0.len() && 0 <= a < s0.len() && p != a);
                        assert((s0[p]).key@ != (s0[a]).key@);
                    } else {
                        assert(s1[a] == s0[a]);
                        assert(s1[b] == s0[b]);
                    }
                }
                lemma_find_frame_hit(s1, frame.key@, p);
                assert forall|k: Seq<char>| k != frame.key@ implies find_frame(s1, k)
                    == find_frame(s0, k) by {
                    assert forall|j: int| 0 <= j < s1.len() implies (((#[trigger] s0[j]).key@
                        == k) <==> ((#[trigger] s1[j]).key@ == k)) by {
                        if j != p {
                            assert(s1[j] == s0[j]);
                        }
                    }
                    assert forall|j: int|
                        0 <= j < s1.len() && (#[trigger] s0[j]).key@ == k implies s0[j]
                        == s1[j] by {
                        assert(j != p);
                    }
                    lemma_find_frame_agree(s0, s1, k);
                }
                assert forall|t: int|
                    0 <= t < s1.len() implies s1[t] == frame || exists|j: int|
                    0 <= j < s0.len() && s1[t] == #[trigger] s0[j] by {
                    if t != p {
                        assert(s1[t] == s0[t]);
                    }
                }
            }
            return;
        }
        i = i + 1;
    }
    frames.push(frame);
    proof {
        let s1 = frames@;
        assert(s1 == s0.push(frame));
        assert(forall|j: int| 0 <= j < s0.len() ==> #[trigger] s1[j] == s0[j]);
        assert(s1[s0.len() as int] == frame);
        lemma_find_frame_none(s0, frame.key@);
        lemma_find_frame_hit(s1, frame.key@, s0.len() as int);
        assert forall|k: Seq<char>| k != frame.key@ implies find_frame(s1, k) == find_frame(
            s0,
            k,
        ) by {
            lemma_find_frame_push(s0, frame, k);
        }
        assert forall|t: int|
            0 <= t < s1.len() implies s1[t] == frame || exists|j: int|
            0 <= j < s0.len() && s1[t] == #[trigger] s0[j] by {
            if t < s0.len() {
                assert(s1[t] == s0[t]);
            }
        }
    }
}

/// Store `sub` under `key`, overwriting any prior texture with the same key.
fn upsert_texture<'a, T: Texture>(
    textures: &mut Vec<(String, SubTexture<'a, T>)>,
    key: String,
    sub: SubTexture<'a, T>,
)
    requires
        texture_keys_unique(old(textures)@),
    ensures
        texture_keys_unique(final(textures)@),
        find_texture(final(textures)@, key@) == Some(sub),
        forall|k: Seq<char>|
            k != key@ ==> find_texture(final(textures)@, k) == find_texture(old(textures)@, k),
{
    let ghost s0 = textures@;
    let ghost entry = (key, sub);
    let n = textures.len();
    let mut i: usize = 0;
    while i < n
        invariant
            s0 == textures@,
            s0 == old(textures)@,
            entry == (key, sub),
            texture_keys_unique(s0),
            n == s0.len(),
            i <= n,
            forall|j: int| 0 <= j < i ==> (#[trigger] s0[j]).0@ != key@,
        decreases n - i,
    {
        if textures[i].0 == key {
            textures[i] = (key, sub);
            proof {
                let s1 = textures@;
                let p: int = i as int;
                assert(s1 == s0.update(p, entry));
                assert(s0[p].0@ == key@);
                assert forall|a: int, b: int|
                    0 <= a < s1.len() && 0 <= b < s1.len() && a != b implies (
                #[trigger] s1[a]).0@ != (#[trigger] s1[b]).0@ by {
                    if a == p {
                        assert(s1[a] == entry);
                        assert(s1[b] == s0[b]);
                        assert(0 <= p < s0.len() && 0 <= b < s0.len() && p != b);
                        assert((s0[p]).0@ != (s0[b]).0@);
                    } else if b == p {
                        assert(s1[b] == entry);
                        assert(s1[a] == s0[a]);
                        assert(0 <= p < s0.len() && 0 <= a < s0.len() && p != a);
                        assert((s0[p]).0@ != (s0[a]).0@);
                    } else {
                        assert(s1[a] == s0[a]);
                        assert(s1[b] == s0[b]);
                    }
                }
                lemma_find_texture_hit(s1, entry.0@, p);
                assert forall|k: Seq<char>| k != entry.0@ implies find_texture(s1, k)
                    == find_texture(s0, k) by {
                    assert forall|j: int| 0 <= j < s1.len() implies (((#[trigger] s0[j]).0@ == k)
                        <==> ((#[trigger] s1[j]).0@ == k)) by {
                        if j != p {
                            assert(s1[j] == s0[j]);
                        }
                    }
                    assert forall|j: int|
                        0 <= j < s1.len() && (#[trigger] s0[j]).0@ == k implies s0[j] == s1[
                        j] by {
                        assert(j != p);
                    }
                    lemma_find_texture_agree(s0, s1, k);
                }
            }
            return;
        }
        i = i + 1;
    }
    textures.push((key, sub));
    proof {
        let s1 = textures@;
        assert(s1 == s0.push(entry));
        assert(forall|j: int| 0 <= j < s0.len() ==> #[trigger] s1[j] == s0[j]);
        assert(s1[s0.len() as int] == entry);
        lemma_find_texture_hit(s1, entry.0@, s0.len() as int);
        assert forall|k: Seq<char>| k != entry.0@ implies find_texture(s1, k) == find_texture(
            s0,
            k,
        ) by {
            lemma_find_texture_push(s0, entry, k);
        }
    }
}

/// Packs textures into a single texture atlas.
pub struct TexturePacker<'a, T> {
    /// Stored sub-views of the packed textures, each under its frame's key.
    pub textures: Vec<(String, SubTexture<'a, T>)>,
    /// The recorded placements.
    pub frames: Vec<Frame>,
    /// The free-space tracker.
    pub packer: SkylinePacker,
    /// The configuration shared by the tracker and the orchestration.
    pub config: TexturePackerConfig,
}

impl<'a, T: Texture> TexturePacker<'a, T> {
    /// A recorded frame denotes real area, stems from a placed rectangle,
    /// and has a stored texture of matching size under its key.
    pub open spec fn frame_ok(self, f: Frame) -> bool {
        &&& 1 <= f.frame.w
        &&& 1 <= f.frame.h
        &&& self.config.border_padding <= f.frame.x
        &&& self.config.border_padding <= f.frame.y
        &&& f.frame.x + f.frame.w + self.config.spec_inflation() <= self.config.max_width
            + self.config.border_padding
        &&& f.frame.y + f.frame.h + self.config.spec_inflation() <= self.config.max_height
            + self.config.border_padding - 1
        &&& frame_placed_in(f, self.packer.placed@, self.config)
        &&& match find_texture(self.textures@, f.key@) {
            Some(sub) => {
                &&& sub.wf()
                &&& (!f.rotated ==> sub.source.w == f.frame.w && sub.source.h == f.frame.h)
                &&& (f.rotated ==> sub.source.w == f.frame.h && sub.source.h == f.frame.w)
            },
            None => false,
        }
    }

    /// Configuration, tracker, frames and stored textures are consistent:
    /// keys are unique, every frame is well formed, and no frame's pixels
    /// reach into another frame's lookup zone.
    pub open spec fn wf(self) -> bool {
        &&& self.config.config_ok()
        &&& self.packer.wf()
        &&& self.packer.config == self.config
        &&& frame_keys_unique(self.frames@)
        &&& texture_keys_unique(self.textures@)
        &&& forall|k: int| 0 <= k < self.frames@.len() ==> self.frame_ok(#[trigger] self.frames@[k])
        &&& forall|k1: int, k2: int|
            0 <= k1 < self.frames@.len() && 0 <= k2 < self.frames@.len() && k1 != k2
                ==> proper_excludes(
                #[trigger] self.frames@[k1],
                #[trigger] self.frames@[k2],
                self.config.texture_extrusion as int,
            )
    }

    /// Create a new packer using the skyline packing algorithm.
    pub fn new_skyline(config: TexturePackerConfig) -> (r: Self)
        requires
            config.config_ok(),
        ensures
            r.wf(),
            r.config == config,
            r.frames@.len() == 0,
            r.textures@.len() == 0,
            r.packer.placed@.len() == 0,
            r.packer.skylines@.len() == 1,
            r.packer.skylines@[0].x == 0,
            r.packer.skylines@[0].y == 0,
            r.packer.skylines@[0].w == config.max_width,
    {
        TexturePacker {
            textures: Vec::new(),
            frames: Vec::new(),
            packer: SkylinePacker::new(config),
            config,
        }
    }

    /// Check if the texture can be packed into this packer.
    pub fn can_pack(&self, texture: &'a T) -> (r: bool)
        requires
            self.wf(),
            texture.wf(),
            1 <= texture.spec_width(),
            1 <= texture.spec_height(),
            self.config.dims_ok(texture.spec_width() as int, texture.spec_height() as int),
        ensures
            r == self.packer.spec_can_pack(
                texture.spec_width() as int,
                texture.spec_height() as int,
            ),
    {
        let rect = Rect::new(0, 0, texture.width(), texture.height());
        self.packer.can_pack(&rect)
    }
}

/// A found frame sits somewhere in the list under its key.
proof fn lemma_find_frame_index(s: Seq<Frame>, key: Seq<char>)
    requires
        find_frame(s, key).is_some(),
    ensures
        exists|m: int|
            0 <= m < s.len() && #[trigger] s[m] == find_frame(s, key).unwrap() && s[m].key@ == key,
    decreases s.len(),
{
    if s.len() > 0 && s[0].key@ != key {
        lemma_find_frame_index(s.drop_first(), key);
        let m = choose|m: int|
            0 <= m < s.drop_first().len() && #[trigger] s.drop_first()[m] == find_frame(
                s.drop_first(),
                key,
            ).unwrap() && s.drop_first()[m].key@ == key;
        assert(s[m + 1] == s.drop_first()[m]);
    }
}

/// The box the packed texture was reduced to: its opaque bounding box when
/// trimming is on, the whole texture otherwise.
pub open spec fn spec_source_of<T: Texture + ?Sized>(t: &T, trim: bool) -> Rect {
    if trim {
        spec_trim_rect(t)
    } else {
        Rect { x: 0, y: 0, w: t.spec_width(), h: t.spec_height() }
    }
}

/// What a successful pack guarantees of the packer's maps: the stored
/// texture under `key` is the sub-view over `source`, the recorded frame
/// under `key` has the sub-view's size (sides swapped when rotated), sits
/// inside the atlas shifted by the border padding, and remembers the
/// original texture's size; every other key's entries are untouched.
pub open spec fn pack_outcome<'a, T: Texture>(
    pre: TexturePacker<'a, T>,
    post: TexturePacker<'a, T>,
    key: Seq<char>,
    source: Rect,
    orig_w: u32,
    orig_h: u32,
) -> bool {
    &&& (forall|k: Seq<char>|
        k != key ==> find_texture(post.textures@, k) == find_texture(pre.textures@, k))
    &&& (forall|k: Seq<char>|
        k != key ==> find_frame(post.frames@, k) == find_frame(pre.frames@, k))
    &&& packed_entries_ok(post, pre.config, key, source, orig_w, orig_h)
}

/// The page holds, under `key`, the sub-view over `source` and a frame of
/// the sub-view's size (sides swapped when rotated) that sits inside the
/// atlas shifted by the border padding and remembers the original texture's
/// size.
pub open spec fn packed_entries_ok<'a, T: Texture>(
    page: TexturePacker<'a, T>,
    config: TexturePackerConfig,
    key: Seq<char>,
    source: Rect,
    orig_w: u32,
    orig_h: u32,
) -> bool {
    let bp = config.border_padding as int;
    let infl = config.spec_inflation();
    &&& match find_texture(page.textures@, key) {
        Some(sub) => sub.source == source,
        None => false,
    }
    &&& match find_frame(page.frames@, key) {
        Some(f) => {
            &&& f.key@ == key
            &&& f.trimmed == config.trim
            &&& f.source == (Rect { x: source.x, y: source.y, w: orig_w, h: orig_h })
            &&& (!f.rotated ==> f.frame.w == source.w && f.frame.h == source.h)
            &&& (f.rotated ==> f.frame.w == source.h && f.frame.h == source.w)
            &&& (f.rotated ==> config.allow_rotation)
            &&& bp <= f.frame.x
            &&& bp <= f.frame.y
            &&& f.frame.x + f.frame.w + infl <= config.max_width + bp
            &&& f.frame.y + f.frame.h + infl <= config.max_height + bp - 1
        },
        None => false,
    }
}

impl<'a, T: Texture> TexturePacker<'a, T> {
    /// Ask the tracker for a placement of the prepared sub-view, record the
    /// frame and store the sub-view.  The caller has already checked the
    /// dry run against the original texture's size.
    fn pack_sub(&mut self, key: String, sub: SubTexture<'a, T>, orig_w: u32, orig_h: u32) -> (r:
        PackResult<()>)
        requires
            old(self).wf(),
            sub.wf(),
            1 <= orig_w,
            1 <= orig_h,
            sub.source.w <= orig_w,
            sub.source.h <= orig_h,
            old(self).config.dims_ok(orig_w as int, orig_h as int),
            old(self).packer.spec_can_pack(orig_w as int, orig_h as int),
        ensures
            final(self).wf(),
            final(self).config == old(self).config,
            r is Ok,
            find_texture(final(self).textures@, key@) == Some(sub),
            pack_outcome(*old(self), *final(self), key@, sub.source, orig_w, orig_h),
    {
        let ghost pre = *old(self);
        let rect = Rect::new(0, 0, sub.width(), sub.height());
        proof {
            lemma_can_place_monotone(
                &self.packer,
                sub.source.w + self.config.spec_inflation(),
                sub.source.h + self.config.spec_inflation(),
                orig_w + self.config.spec_inflation(),
                orig_h + self.config.spec_inflation(),
            );
        }
        match self.packer.pack(key.clone(), &rect) {
            Some(mut frame) => {
                let ghost frame0 = frame;
                let ghost p = self.packer.placed@.last();
                let ghost packer1 = self.packer;

                frame.frame.x = frame.frame.x + self.config.border_padding;
                frame.frame.y = frame.frame.y + self.config.border_padding;
                frame.trimmed = self.config.trim;
                frame.source = Rect { x: sub.source.x, y: sub.source.y, w: orig_w, h: orig_h };
                let ghost fr = frame;

                proof {
                    assert(frame_from_placed(fr, p, pre.config));
                    assert(fr.key@ == key@);
                }

                upsert_frame(&mut self.frames, frame);
                upsert_texture(&mut self.textures, key, sub);

                proof {
                    let cfg = pre.config;
                    let e = cfg.texture_extrusion as int;
                    let frames0 = pre.frames@;
                    let frames1 = self.frames@;
                    let placed0 = pre.packer.placed@;
                    let placed1 = self.packer.placed@;
                    assert(placed1 == placed0.push(p));
                    assert(placed1[placed1.len() - 1] == p);
                    assert(forall|j: int| 0 <= j < placed0.len() ==> placed1[j] == #[trigger] placed0[j]);

                    // every recorded frame is well formed in the new state
                    assert forall|k: int|
                        0 <= k < frames1.len() implies self.frame_ok(#[trigger] frames1[k]) by {
                        let f = frames1[k];
                        if f == fr {
                            assert(frame_from_placed(fr, placed1[placed1.len() - 1], cfg));
                            assert(frame_placed_in(fr, placed1, cfg));
                            assert(find_texture(self.textures@, fr.key@) == Some(sub));
                        } else {
                            let j = choose|j: int|
                                0 <= j < frames0.len() && f == #[trigger] frames0[j];
                            assert(pre.frame_ok(f));
                            let i0 = choose|i0: int|
                                0 <= i0 < placed0.len() && frame_from_placed(
                                    f,
                                    #[trigger] placed0[i0],
                                    cfg,
                                );
                            assert(frame_from_placed(f, placed1[i0], cfg));
                            assert(frame_placed_in(f, placed1, cfg));
                            if f.key@ == key@ {
                                // a surviving frame cannot carry the new key
                                lemma_find_frame_index(frames1, key@);
                                let m = choose|m: int|
                                    0 <= m < frames1.len() && #[trigger] frames1[m] == find_frame(
                                        frames1,
                                        key@,
                                    ).unwrap() && frames1[m].key@ == key@;
                                assert(frames1[m] == fr);
                                assert(m == k);
                                assert(false);
                            }
                            assert(find_texture(self.textures@, f.key@) == find_texture(
                                pre.textures@,
                                f.key@,
                            ));
                        }
                    }

                    // no frame's pixels reach into another frame's zone
                    assert forall|k1: int, k2: int|
                        0 <= k1 < frames1.len() && 0 <= k2 < frames1.len() && k1
                            != k2 implies proper_excludes(
                        #[trigger] frames1[k1],
                        #[trigger] frames1[k2],
                        e,
                    ) by {
                        let f1 = frames1[k1];
                        let f2 = frames1[k2];
                        if f1 == f2 {
                            assert(frames1[k1].key@ != frames1[k2].key@);
                            assert(false);
                        }
                        if f1 == fr {
                            let j2 = choose|j: int|
                                0 <= j < frames0.len() && f2 == #[trigger] frames0[j];
                            assert(pre.frame_ok(f2));
                            let i2 = choose|i0: int|
                                0 <= i0 < placed0.len() && frame_from_placed(
                                    f2,
                                    #[trigger] placed0[i0],
                                    cfg,
                                );
                            assert(placed1[i2] == placed0[i2]);
                            assert(p.spec_disjoint(placed0[i2]));
                            lemma_proper_excludes(fr, f2, p, placed0[i2], cfg);
                        } else if f2 == fr {
                            let j1 = choose|j: int|
                                0 <= j < frames0.len() && f1 == #[trigger] frames0[j];
                            assert(pre.frame_ok(f1));
                            let i1 = choose|i0: int|
                                0 <= i0 < placed0.len() && frame_from_placed(
                                    f1,
                                    #[trigger] placed0[i0],
                                    cfg,
                                );
                            assert(placed1[i1] == placed0[i1]);
                            assert(placed0[i1].spec_disjoint(p));
                            lemma_proper_excludes(f1, fr, placed0[i1], p, cfg);
                        } else {
                            let j1 = choose|j: int|
                                0 <= j < frames0.len() && f1 == #[trigger] frames0[j];
                            let j2 = choose|j: int|
                                0 <= j < frames0.len() && f2 == #[trigger] frames0[j];
                            if j1 == j2 {
                                assert(f1 == f2);
                                assert(false);
                            }
                            assert(proper_excludes(frames0[j1], frames0[j2], e));
                        }
                    }
                    assert(self.wf());
                }
                Ok(())
            },
            None => {
                proof {
                    assert(false);
                }
                Err(PackError::TextureTooLargeToFitIntoAtlas)
            },
        }
    }

    /// Pack the `texture` into this packer, taking a reference of the texture object.
    pub fn pack_ref(&mut self, key: String, texture: &'a T) -> (r: PackResult<()>)
        requires
            old(self).wf(),
            texture.wf(),
            1 <= texture.spec_width(),
            1 <= texture.spec_height(),
            old(self).config.dims_ok(texture.spec_width() as int, texture.spec_height() as int),
            old(self).config.trim ==> spec_has_opaque_pixel(texture),
        ensures
            final(self).wf(),
            final(self).config == old(self).config,
            (r is Ok) <==> old(self).packer.spec_can_pack(
                texture.spec_width() as int,
                texture.spec_height() as int,
            ),
            !(r is Ok) ==> *final(self) == *old(self),
            (r is Ok) ==> pack_outcome(
                *old(self),
                *final(self),
                key@,
                spec_source_of(texture, old(self).config.trim),
                texture.spec_width(),
                texture.spec_height(),
            ),
            (r is Ok) ==> match find_texture(final(self).textures@, key@) {
                Some(sub) => sub.inner() == *texture && !sub.is_owned(),
                None => false,
            },
    {
        let rect = Rect::new(0, 0, texture.width(), texture.height());
        if !self.packer.can_pack(&rect) {
            return Err(PackError::TextureTooLargeToFitIntoAtlas);
        }
        let w = texture.width();
        let h = texture.height();
        let source = if self.config.trim {
            trim_texture(texture)
        } else {
            Rect::new(0, 0, w, h)
        };
        let sub = SubTexture::from_ref(texture, source);
        let r = self.pack_sub(key, sub, w, h);
        r
    }

    /// Pack the `texture` into this packer, taking ownership of the texture object.
    pub fn pack_own(&mut self, key: String, texture: T) -> (r: PackResult<()>)
        requires
            old(self).wf(),
            texture.wf(),
            1 <= texture.spec_width(),
            1 <= texture.spec_height(),
            old(self).config.dims_ok(texture.spec_width() as int, texture.spec_height() as int),
            old(self).config.trim ==> spec_has_opaque_pixel(&texture),
        ensures
            final(self).wf(),
            final(self).config == old(self).config,
            (r is Ok) <==> old(self).packer.spec_can_pack(
                texture.spec_width() as int,
                texture.spec_height() as int,
            ),
            !(r is Ok) ==> *final(self) == *old(self),
            (r is Ok) ==> pack_outcome(
                *old(self),
                *final(self),
                key@,
                spec_source_of(&texture, old(self).config.trim),
                texture.spec_width(),
                texture.spec_height(),
            ),
            (r is Ok) ==> match find_texture(final(self).textures@, key@) {
                Some(sub) => sub.inner() == texture && sub.is_owned(),
                None => false,
            },
    {
        let rect = Rect::new(0, 0, texture.width(), texture.height());
        if !self.packer.can_pack(&rect) {
            return Err(PackError::TextureTooLargeToFitIntoAtlas);
        }
        let w = texture.width();
        let h = texture.height();
        let source = if self.config.trim {
            trim_texture(&texture)
        } else {
            Rect::new(0, 0, w, h)
        };
        let sub = SubTexture::new(texture, source);
        let r = self.pack_sub(key, sub, w, h);
        r
    }
}

/// The first recorded frame whose lookup zone contains the point, in
/// storage order.
pub open spec fn spec_frame_at(frames: Seq<Frame>, e: int, x: int, y: int) -> Option<Frame>
    decreases frames.len(),
{
    if frames.len() == 0 {
        None
    } else if in_zone(frames[0], e, x, y) {
        Some(frames[0])
    } else {
        spec_frame_at(frames.drop_first(), e, x, y)
    }
}

/// A zone hit behind a prefix of misses is what the zone lookup returns.
proof fn lemma_frame_at_hit(frames: Seq<Frame>, e: int, x: int, y: int, i: int)
    requires
        0 <= i < frames.len(),
        forall|j: int| 0 <= j < i ==> !in_zone(#[trigger] frames[j], e, x, y),
        in_zone(frames[i], e, x, y),
    ensures
        spec_frame_at(frames, e, x, y) == Some(frames[i]),
    decreases i,
{
    if i > 0 {
        lemma_frame_at_hit(frames.drop_first(), e, x, y, i - 1);
        assert(frames.drop_first()[i - 1] == frames[i]);
    }
}

/// With no zone containing the point the zone lookup returns nothing.
proof fn lemma_frame_at_none(frames: Seq<Frame>, e: int, x: int, y: int)
    requires
        forall|j: int| 0 <= j < frames.len() ==> !in_zone(#[trigger] frames[j], e, x, y),
    ensures
        spec_frame_at(frames, e, x, y) == None::<Frame>,
    decreases frames.len(),
{
    if frames.len() > 0 {
        lemma_frame_at_none(frames.drop_first(), e, x, y);
    }
}

/// Inclusive right edge of the rightmost recorded frame; `-1` with no frames.
pub open spec fn frames_max_right(fs: Seq<Frame>) -> int
    decreases fs.len(),
{
    if fs.len() == 0 {
        -1
    } else {
        let rest = frames_max_right(fs.drop_last());
        let last = fs.last().frame.x + fs.last().frame.w - 1;
        if last > rest {
            last
        } else {
            rest
        }
    }
}

/// Inclusive bottom edge of the lowest recorded frame; `-1` with no frames.
pub open spec fn frames_max_bottom(fs: Seq<Frame>) -> int
    decreases fs.len(),
{
    if fs.len() == 0 {
        -1
    } else {
        let rest = frames_max_bottom(fs.drop_last());
        let last = fs.last().frame.y + fs.last().frame.h - 1;
        if last > rest {
            last
        } else {
            rest
        }
    }
}

impl<'a, T: Texture> TexturePacker<'a, T> {
    /// Get the backing list of frames.
    pub fn get_frames(&self) -> (r: &Vec<Frame>)
        ensures
            r@ == self.frames@,
    {
        &self.frames
    }

    /// Acquire a frame by its name.
    pub fn get_frame(&self, key: &String) -> (r: Option<&Frame>)
        ensures
            match r {
                Some(f) => find_frame(self.frames@, key@) == Some(*f),
                None => find_frame(self.frames@, key@) is None,
            },
    {
        let n = self.frames.len();
        let mut i: usize = 0;
        while i < n
            invariant
                n == self.frames@.len(),
                i <= n,
                forall|j: int| 0 <= j < i ==> (#[trigger] self.frames@[j]).key@ != key@,
            decreases n - i,
        {
            if self.frames[i].key == *key {
                proof {
                    lemma_find_frame_hit(self.frames@, key@, i as int);
                }
                return Some(&self.frames[i]);
            }
            i = i + 1;
        }
        proof {
            lemma_find_frame_none(self.frames@, key@);
        }
        None
    }

    /// The stored sub-view for a key.
    fn get_texture(&self, key: &String) -> (r: Option<&SubTexture<'a, T>>)
        ensures
            match r {
                Some(t) => find_texture(self.textures@, key@) == Some(*t),
                None => find_texture(self.textures@, key@) is None,
            },
    {
        let n = self.textures.len();
        let mut i: usize = 0;
        while i < n
            invariant
                n == self.textures@.len(),
                i <= n,
                forall|j: int| 0 <= j < i ==> (#[trigger] self.textures@[j]).0@ != key@,
            decreases n - i,
        {
            if self.textures[i].0 == *key {
                proof {
                    lemma_find_texture_hit(self.textures@, key@, i as int);
                }
                return Some(&self.textures[i].1);
            }
            i = i + 1;
        }
        proof {
            assert forall|j: int|
                0 <= j < self.textures@.len() implies (#[trigger] self.textures@[j]).0@
                != key@ by {}
            lemma_find_texture_none_local(self.textures@, key@);
        }
        None
    }

    /// Get the frame whose lookup zone overlaps with a specified coordinate.
    fn get_frame_at(&self, x: u32, y: u32) -> (r: Option<&Frame>)
        requires
            self.wf(),
        ensures
            match r {
                Some(f) => spec_frame_at(
                    self.frames@,
                    self.config.texture_extrusion as int,
                    x as int,
                    y as int,
                ) == Some(*f) && exists|i: int|
                    0 <= i < self.frames@.len() && #[trigger] self.frames@[i] == *f,
                None => spec_frame_at(
                    self.frames@,
                    self.config.texture_extrusion as int,
                    x as int,
                    y as int,
                ) is None,
            },
    {
        let ghost e = self.config.texture_extrusion as int;
        let extrusion = self.config.texture_extrusion;
        let n = self.frames.len();
        let mut i: usize = 0;
        while i < n
            invariant
                self.wf(),
                e == self.config.texture_extrusion as int,
                extrusion == self.config.texture_extrusion,
                n == self.frames@.len(),
                i <= n,
                forall|j: int| 0 <= j < i ==> !in_zone(#[trigger] self.frames@[j], e, x as int, y as int),
            decreases n - i,
        {
            let frame = &self.frames[i];
            let mut rect = frame.frame;

            rect.x = if rect.x >= extrusion {
                rect.x - extrusion
            } else {
                0
            };
            rect.y = if rect.y >= extrusion {
                rect.y - extrusion
            } else {
                0
            };
            rect.w = rect.w + extrusion * 2;
            rect.h = rect.h + extrusion * 2;

            if rect.contains_point(x, y) {
                proof {
                    assert(in_zone(self.frames@[i as int], e, x as int, y as int));
                    lemma_frame_at_hit(self.frames@, e, x as int, y as int, i as int);
                }
                return Some(&self.frames[i]);
            }
            proof {
                assert(!in_zone(self.frames@[i as int], e, x as int, y as int));
            }
            i = i + 1;
        }
        proof {
            lemma_frame_at_none(self.frames@, e, x as int, y as int);
        }
        None
    }
}

/// Tuple-list analogue of `lemma_find_frame_none`.
proof fn lemma_find_texture_none_local<'a, T>(s: Seq<(String, SubTexture<'a, T>)>, key: Seq<char>)
    requires
        forall|j: int| 0 <= j < s.len() ==> (#[trigger] s[j]).0@ != key,
    ensures
        find_texture(s, key) is None,
    decreases s.len(),
{
    if s.len() > 0 {
        lemma_find_texture_none_local(s.drop_first(), key);
    }
}

impl<'a, T: Texture> Texture for TexturePacker<'a, T> {
    type Pixel = T::Pixel;

    open spec fn wf(&self) -> bool {
        TexturePacker::wf(*self)
    }

    /// Computed width of the composed atlas: the rightmost frame edge plus
    /// the border padding, or the full atlas width when
    /// `force_max_dimensions` is set.
    open spec fn spec_width(&self) -> u32 {
        if self.config.force_max_dimensions {
            self.config.max_width
        } else if self.frames@.len() == 0 {
            0
        } else {
            (frames_max_right(self.frames@) + 1 + self.config.border_padding) as u32
        }
    }

    /// Computed height of the composed atlas.
    open spec fn spec_height(&self) -> u32 {
        if self.config.force_max_dimensions {
            self.config.max_height
        } else if self.frames@.len() == 0 {
            0
        } else {
            (frames_max_bottom(self.frames@) + 1 + self.config.border_padding) as u32
        }
    }

    /// The composed read view: find the first frame whose lookup zone covers
    /// the point, draw the outline color on the frame's edge when outlines
    /// are on, and otherwise read the stored sub-view at the point translated
    /// into the view (through the rotation when the frame is rotated), with
    /// each coordinate clamped to the view's edge so the extrusion margin
    /// repeats the edge pixels.
    open spec fn pixel_at(&self, x: int, y: int) -> Option<T::Pixel> {
        match spec_frame_at(self.frames@, self.config.texture_extrusion as int, x, y) {
            None => None,
            Some(f) => if self.config.texture_outlines && f.frame.spec_is_outline(x, y) {
                Some(<T::Pixel as Pixel>::outline_spec())
            } else {
                match find_texture(self.textures@, f.key@) {
                    None => None,
                    Some(t) => {
                        let x0 = if x >= f.frame.x {
                            x - f.frame.x
                        } else {
                            0
                        };
                        let y0 = if y >= f.frame.y {
                            y - f.frame.y
                        } else {
                            0
                        };
                        if f.rotated {
                            let xc = if x0 < t.source.h {
                                x0
                            } else {
                                t.source.h - 1
                            };
                            let yc = if y0 < t.source.w {
                                y0
                            } else {
                                t.source.w - 1
                            };
                            t.pixel_at(yc, t.source.h - xc - 1)
                        } else {
                            let xc = if x0 < t.source.w {
                                x0
                            } else {
                                t.source.w - 1
                            };
                            let yc = if y0 < t.source.h {
                                y0
                            } else {
                                t.source.h - 1
                            };
                            t.pixel_at(xc, yc)
                        }
                    },
                }
            },
        }
    }

    /// The composed atlas is a read-only projection.
    open spec fn settable(&self, x: int, y: int) -> bool {
        false
    }

    fn width(&self) -> (r: u32) {
        if self.config.force_max_dimensions {
            return self.config.max_width;
        }
        let mut right: Option<u32> = None;
        let n = self.frames.len();
        let mut i: usize = 0;
        while i < n
            invariant
                TexturePacker::wf(*self),
                !self.config.force_max_dimensions,
                n == self.frames@.len(),
                i <= n,
                match right {
                    None => i == 0,
                    Some(rv) => {
                        &&& 0 < i
                        &&& rv == frames_max_right(self.frames@.take(i as int))
                        &&& rv <= self.config.max_width + self.config.border_padding - 1
                    },
                },
            decreases n - i,
        {
            let fr = self.frames[i].frame.right();
            let new_rv = match right {
                Some(rv) => if fr > rv {
                    fr
                } else {
                    rv
                },
                None => fr,
            };
            proof {
                assert(self.frame_ok(self.frames@[i as int]));
                let pfx = self.frames@.take(i as int + 1);
                assert(pfx.drop_last() =~= self.frames@.take(i as int));
                assert(pfx.last() == self.frames@[i as int]);
                if i == 0 {
                    assert(self.frames@.take(0) =~= Seq::<Frame>::empty());
                    assert(frames_max_right(Seq::<Frame>::empty()) == -1);
                }
                assert(new_rv as int == frames_max_right(pfx));
            }
            right = Some(new_rv);
            i = i + 1;
        }
        proof {
            assert(self.frames@.take(n as int) =~= self.frames@);
        }
        match right {
            Some(rv) => rv + 1 + self.config.border_padding,
            None => 0,
        }
    }

    fn height(&self) -> (r: u32) {
        if self.config.force_max_dimensions {
            return self.config.max_height;
        }
        let mut bottom: Option<u32> = None;
        let n = self.frames.len();
        let mut i: usize = 0;
        while i < n
            invariant
                TexturePacker::wf(*self),
                !self.config.force_max_dimensions,
                n == self.frames@.len(),
                i <= n,
                match bottom {
                    None => i == 0,
                    Some(bv) => {
                        &&& 0 < i
                        &&& bv == frames_max_bottom(self.frames@.take(i as int))
                        &&& bv <= self.config.max_height + self.config.border_padding - 1
                    },
                },
            decreases n - i,
        {
            let fb = self.frames[i].frame.bottom();
            let new_bv = match bottom {
                Some(bv) => if fb > bv {
                    fb
                } else {
                    bv
                },
                None => fb,
            };
            proof {
                assert(self.frame_ok(self.frames@[i as int]));
                let pfx = self.frames@.take(i as int + 1);
                assert(pfx.drop_last() =~= self.frames@.take(i as int));
                assert(pfx.last() == self.frames@[i as int]);
                if i == 0 {
                    assert(self.frames@.take(0) =~= Seq::<Frame>::empty());
                    assert(frames_max_bottom(Seq::<Frame>::empty()) == -1);
                }
                assert(new_bv as int == frames_max_bottom(pfx));
            }
            bottom = Some(new_bv);
            i = i + 1;
        }
        proof {
            assert(self.frames@.take(n as int) =~= self.frames@);
        }
        match bottom {
            Some(bv) => bv + 1 + self.config.border_padding,
            None => 0,
        }
    }

    fn get(&self, x: u32, y: u32) -> (r: Option<T::Pixel>) {
        if let Some(frame) = self.get_frame_at(x, y) {
            proof {
                let i = choose|i: int|
                    0 <= i < self.frames@.len() && #[trigger] self.frames@[i] == *frame;
                assert(self.frame_ok(*frame));
            }
            if self.config.texture_outlines && frame.frame.is_outline(x, y) {
                return Some(<T::Pixel as Pixel>::outline());
            }
            if let Some(texture) = self.get_texture(&frame.key) {
                let x0 = if x >= frame.frame.x {
                    x - frame.frame.x
                } else {
                    0
                };
                let y0 = if y >= frame.frame.y {
                    y - frame.frame.y
                } else {
                    0
                };
                if frame.rotated {
                    let th = texture.height();
                    let tw = texture.width();
                    let xc = if x0 < th {
                        x0
                    } else {
                        th - 1
                    };
                    let yc = if y0 < tw {
                        y0
                    } else {
                        tw - 1
                    };
                    return texture.get_rotated(xc, yc);
                } else {
                    let tw = texture.width();
                    let th = texture.height();
                    let xc = if x0 < tw {
                        x0
                    } else {
                        tw - 1
                    };
                    let yc = if y0 < th {
                        y0
                    } else {
                        th - 1
                    };
                    return texture.get(xc, yc);
                }
            } else {
                proof {
                    assert(false);
                }
                return None;
            }
        }
        None
    }

    fn set(&mut self, x: u32, y: u32, val: T::Pixel) {
        // excluded by this method's precondition: the composed atlas cannot
        // be written to
    }
}

/// A frame's own pixels always lie inside its lookup zone.
proof fn lemma_proper_in_zone(f: Frame, e: int, qx: int, qy: int)
    requires
        0 <= e,
        in_proper(f, qx, qy),
    ensures
        in_zone(f, e, qx, qy),
{
}

/// The zone lookup at a pixel of a recorded frame finds exactly that frame.
proof fn lemma_frame_at_of_proper<'a, T: Texture>(
    p: &TexturePacker<'a, T>,
    m: int,
    qx: int,
    qy: int,
)
    requires
        p.wf(),
        0 <= m < p.frames@.len(),
        in_proper(p.frames@[m], qx, qy),
    ensures
        spec_frame_at(p.frames@, p.config.texture_extrusion as int, qx, qy) == Some(
            p.frames@[m],
        ),
{
    let e = p.config.texture_extrusion as int;
    assert forall|j: int| 0 <= j < m implies !in_zone(#[trigger] p.frames@[j], e, qx, qy) by {
        assert(proper_excludes(p.frames@[m], p.frames@[j], e));
    }
    lemma_proper_in_zone(p.frames@[m], e, qx, qy);
    lemma_frame_at_hit(p.frames@, e, qx, qy, m);
}

/// No-overlap invariant: two distinct frames recorded on the same page do
/// not intersect; they share no pixel at all.
pub proof fn lemma_frames_no_overlap<'a, T: Texture>(p: &TexturePacker<'a, T>, k1: int, k2: int)
    requires
        p.wf(),
        0 <= k1 < p.frames@.len(),
        0 <= k2 < p.frames@.len(),
        k1 != k2,
    ensures
        p.frames@[k1].frame.spec_disjoint(p.frames@[k2].frame),
        !p.frames@[k1].frame.spec_intersects(p.frames@[k2].frame),
{
    let f1 = p.frames@[k1];
    let f2 = p.frames@[k2];
    let e = p.config.texture_extrusion as int;
    assert(p.frame_ok(f1));
    assert(p.frame_ok(f2));
    assert(proper_excludes(f1, f2, e));
    if !f1.frame.spec_disjoint(f2.frame) {
        let qx: int = if f1.frame.x >= f2.frame.x {
            f1.frame.x as int
        } else {
            f2.frame.x as int
        };
        let qy: int = if f1.frame.y >= f2.frame.y {
            f1.frame.y as int
        } else {
            f2.frame.y as int
        };
        assert(in_proper(f1, qx, qy));
        assert(in_proper(f2, qx, qy));
        lemma_proper_in_zone(f2, e, qx, qy);
        assert(false);
    }
}

/// Containment invariant: every recorded frame lies inside the atlas
/// bounds.  This needs the border padding to stay within the inter-frame
/// padding plus the extruded pixels; a larger border padding shifts frames
/// past the right and bottom atlas edges by design.
pub proof fn lemma_frames_contained<'a, T: Texture>(p: &TexturePacker<'a, T>, k: int)
    requires
        p.wf(),
        0 <= k < p.frames@.len(),
        p.config.border_padding <= p.config.spec_inflation(),
    ensures
        0 <= p.frames@[k].frame.x,
        0 <= p.frames@[k].frame.y,
        p.frames@[k].frame.x + p.frames@[k].frame.w <= p.config.max_width,
        p.frames@[k].frame.y + p.frames@[k].frame.h <= p.config.max_height,
{
    assert(p.frame_ok(p.frames@[k]));
}

/// Round-trip read: for a texture packed without rotation, and with
/// outlines off, reading the composed atlas inside the frame returns the
/// stored sub-view's pixel at the same offset.
pub proof fn lemma_round_trip_read<'a, T: Texture>(
    p: &TexturePacker<'a, T>,
    key: Seq<char>,
    i: int,
    j: int,
)
    requires
        p.wf(),
        !p.config.texture_outlines,
        find_frame(p.frames@, key) is Some,
        !find_frame(p.frames@, key).unwrap().rotated,
        0 <= i < find_frame(p.frames@, key).unwrap().frame.w,
        0 <= j < find_frame(p.frames@, key).unwrap().frame.h,
    ensures
        ({
            let f = find_frame(p.frames@, key).unwrap();
            &&& find_texture(p.textures@, key) is Some
            &&& p.pixel_at(f.frame.x + i, f.frame.y + j) == find_texture(
                p.textures@,
                key,
            ).unwrap().pixel_at(i, j)
        }),
{
    let f = find_frame(p.frames@, key).unwrap();
    lemma_find_frame_index(p.frames@, key);
    let m = choose|m: int|
        0 <= m < p.frames@.len() && #[trigger] p.frames@[m] == f && p.frames@[m].key@ == key;
    assert(p.frame_ok(f));
    let qx = f.frame.x + i;
    let qy = f.frame.y + j;
    lemma_frame_at_of_proper(p, m, qx, qy);
}

/// Rotation round-trip: for a texture packed with rotation, and with
/// outlines off, reading the composed atlas inside the frame returns the
/// stored sub-view's pixel at the 90-degree-clockwise-inverse-mapped
/// offset.
pub proof fn lemma_rotation_round_trip<'a, T: Texture>(
    p: &TexturePacker<'a, T>,
    key: Seq<char>,
    i: int,
    j: int,
)
    requires
        p.wf(),
        !p.config.texture_outlines,
        find_frame(p.frames@, key) is Some,
        find_frame(p.frames@, key).unwrap().rotated,
        0 <= i < find_frame(p.frames@, key).unwrap().frame.w,
        0 <= j < find_frame(p.frames@, key).unwrap().frame.h,
    ensures
        ({
            let f = find_frame(p.frames@, key).unwrap();
            let sub = find_texture(p.textures@, key).unwrap();
            &&& find_texture(p.textures@, key) is Some
            &&& p.pixel_at(f.frame.x + i, f.frame.y + j) == sub.pixel_at(
                j,
                sub.source.h - 1 - i,
            )
        }),
{
    let f = find_frame(p.frames@, key).unwrap();
    lemma_find_frame_index(p.frames@, key);
    let m = choose|m: int|
        0 <= m < p.frames@.len() && #[trigger] p.frames@[m] == f && p.frames@[m].key@ == key;
    assert(p.frame_ok(f));
    let qx = f.frame.x + i;
    let qy = f.frame.y + j;
    lemma_frame_at_of_proper(p, m, qx, qy);
}

/// Trim idempotence: a texture with no fully transparent border row or
/// column trims to its own full box.
pub proof fn lemma_trim_idempotent<T: Texture>(t: &T)
    requires
        t.wf(),
        1 <= t.spec_width(),
        1 <= t.spec_height(),
        !spec_column_transparent(t, 0),
        !spec_column_transparent(t, t.spec_width() - 1),
        !spec_row_transparent(t, 0),
        !spec_row_transparent(t, t.spec_height() - 1),
    ensures
        spec_trim_rect(t) == (Rect { x: 0, y: 0, w: t.spec_width(), h: t.spec_height() }),
{
    assert(first_opaque_col_from(t, 0) == 0);
    assert(last_opaque_col_from(t, t.spec_width() - 1) == t.spec_width() - 1);
    assert(first_opaque_row_from(t, 0) == 0);
    assert(last_opaque_row_from(t, t.spec_height() - 1) == t.spec_height() - 1);
}

} // verus!
