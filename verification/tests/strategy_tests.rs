use texture_packer::buffer2d::{Buffer2d, MemoryBuffer, Packer};
use texture_packer::guillotine_packer::GuillotinePacker;
use texture_packer::maxrect_packer::MaxrectPacker;
use texture_packer::rect::Rect;
use texture_packer::shelf_packer::ShelfPacker;
use texture_packer::skyline_packer::SkylinePacker;
use texture_packer::texture::memory_rgba8_texture::MemoryRGBA8Texture;

fn blank_buffer(w: u32, h: u32) -> MemoryBuffer {
    MemoryBuffer::new(MemoryRGBA8Texture::from_memory(
        &vec![0u8; (4 * w * h) as usize],
        w,
        h,
    ))
}

fn numbered_buffer(w: u32, h: u32) -> MemoryBuffer {
    let mut bytes = Vec::new();
    for i in 0..(w * h) {
        bytes.push((4 * i) as u8);
        bytes.push((4 * i + 1) as u8);
        bytes.push((4 * i + 2) as u8);
        bytes.push(255);
    }
    MemoryBuffer::new(MemoryRGBA8Texture::from_memory(&bytes, w, h))
}

#[test]
fn rect_accessors() {
    let r = Rect::new(2, 3, 4, 5);
    assert_eq!(r.left(), 2);
    assert_eq!(r.right(), 5);
    assert_eq!(r.top(), 3);
    assert_eq!(r.bottom(), 7);
    assert_eq!(r.area(), 20);
    assert_eq!(Rect::new_with_points(2, 3, 5, 7), r);
}

#[test]
fn rect_intersection_is_strict() {
    let a = Rect::new(0, 0, 10, 10);
    let b = Rect::new(4, 4, 2, 2);
    assert!(a.intersects(&b));
    assert!(a.contains(&b));
    // touching rectangles do not count as intersecting
    let c = Rect::new(10, 0, 5, 10);
    assert!(!a.intersects(&c));
    // a one-pixel rectangle never intersects itself
    let d = Rect::new(3, 3, 1, 1);
    assert!(!d.intersects(&d));
    assert!(a.contains_point(9, 9));
    assert!(!a.contains_point(10, 9));
    assert!(a.is_outline(0, 5));
    assert!(!a.is_outline(5, 5));
}

#[test]
fn crop_emits_the_four_strips() {
    let a = Rect::new(0, 0, 10, 10);
    let b = Rect::new(4, 4, 2, 2);
    let pieces = a.crop(&b);
    assert_eq!(
        pieces,
        vec![
            Rect::new(0, 0, 5, 10),
            Rect::new(5, 0, 5, 10),
            Rect::new(4, 0, 2, 5),
            Rect::new(4, 5, 2, 5),
        ]
    );
}

#[test]
fn crop_returns_self_when_disjoint() {
    let a = Rect::new(0, 0, 4, 4);
    let b = Rect::new(8, 8, 2, 2);
    assert_eq!(a.crop(&b), vec![a]);
}

#[test]
fn guillotine_packs_and_patches() {
    let mut packer = GuillotinePacker::new(blank_buffer(10, 10));
    let src = numbered_buffer(3, 2);
    let rect = packer.pack(&src).expect("fits");
    assert_eq!(rect, Rect::new(0, 0, 3, 2));
    // the source pixels were copied into place
    for x in 0..3u32 {
        for y in 0..2u32 {
            assert_eq!(packer.buf().get(x, y), src.get(x, y));
        }
    }
    // a second buffer lands in a disjoint spot
    let second = numbered_buffer(4, 4);
    let rect2 = packer.pack(&second).expect("fits");
    assert!(!rect.intersects(&rect2));
    let too_big = numbered_buffer(11, 1);
    assert!(packer.pack(&too_big).is_none());
}

#[test]
fn maxrect_packs_bottom_left() {
    let mut packer = MaxrectPacker::new(blank_buffer(10, 10));
    let src = numbered_buffer(4, 3);
    let rect = packer.pack(&src).expect("fits");
    assert_eq!(rect, Rect::new(0, 0, 4, 3));
    for x in 0..4u32 {
        for y in 0..3u32 {
            assert_eq!(packer.buf().get(x, y), src.get(x, y));
        }
    }
    let second = numbered_buffer(4, 3);
    let rect2 = packer.pack(&second).expect("fits");
    assert_eq!(rect2, Rect::new(4, 0, 4, 3));
}

#[test]
fn shelf_reports_the_cursor_after_the_placement() {
    let mut packer = ShelfPacker::new(blank_buffer(10, 10));
    let src = numbered_buffer(2, 2);
    let rect = packer.pack(&src).expect("fits");
    // the shelf packer reports the cursor position after advancing it
    assert_eq!(rect, Rect::new(2, 0, 2, 2));
    for x in 0..2u32 {
        for y in 0..2u32 {
            assert_eq!(packer.buf().get(x, y), src.get(x, y));
        }
    }
    // a tall first rectangle of a fresh shelf is stored on its side
    let mut sideways = ShelfPacker::new(blank_buffer(10, 10));
    let tall = numbered_buffer(1, 3);
    let r = sideways.pack(&tall).expect("fits");
    assert_eq!(r, Rect::new(3, 0, 3, 1));
}

#[test]
fn buffer_skyline_packs_with_margin() {
    let mut packer = SkylinePacker::new(blank_buffer(12, 12));
    packer.set_margin(1);
    let src = numbered_buffer(3, 3);
    let rect = packer.pack(&src).expect("fits");
    // the margin is taken back off the reported rectangle
    assert_eq!(rect, Rect::new(0, 0, 3, 3));
    for x in 0..3u32 {
        for y in 0..3u32 {
            assert_eq!(packer.buf().get(x, y), src.get(x, y));
        }
    }
    let second = numbered_buffer(3, 3);
    let rect2 = packer.pack(&second).expect("fits");
    // the second placement sits one margin pixel further right
    assert_eq!(rect2, Rect::new(4, 0, 3, 3));
    let buf = packer.into_buf();
    assert_eq!(buf.get(4, 0), second.get(0, 0));
}

#[test]
fn buffer_skyline_rotates_when_it_packs_tighter() {
    let mut packer = SkylinePacker::new(blank_buffer(6, 2));
    let tall = numbered_buffer(2, 6);
    let rect = packer.pack(&tall).expect("fits");
    assert_eq!(rect, Rect::new(0, 0, 6, 2));
    // the pixels were written turned 90 degrees clockwise
    assert_eq!(packer.buf().get(5, 0), tall.get(0, 0));
    assert_eq!(packer.buf().get(0, 0), tall.get(0, 5));
}
