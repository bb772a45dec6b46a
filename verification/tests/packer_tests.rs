use texture_packer::frame::Frame;
use texture_packer::multi_texture_packer::MultiTexturePacker;
use texture_packer::rect::Rect;
use texture_packer::texture::memory_rgba8_texture as mrt;
use texture_packer::texture::Texture;
use texture_packer::texture_packer::{PackError, TexturePacker};
use texture_packer::texture_packer_config::TexturePackerConfig;

fn opaque_texture(w: u32, h: u32) -> mrt::MemoryRGBA8Texture {
    let mut bytes = Vec::new();
    let mut i: u32 = 0;
    while i < w * h {
        bytes.push((i % 251) as u8);
        bytes.push(((i / 251) % 251) as u8);
        bytes.push(7);
        bytes.push(255);
        i += 1;
    }
    mrt::MemoryRGBA8Texture::from_memory(&bytes, w, h)
}

fn plain_config(max_width: u32, max_height: u32) -> TexturePackerConfig {
    TexturePackerConfig {
        max_width,
        max_height,
        allow_rotation: false,
        force_max_dimensions: false,
        border_padding: 0,
        texture_padding: 0,
        texture_extrusion: 0,
        trim: false,
        texture_outlines: false,
    }
}

#[test]
fn texture_too_small() {
    let config = TexturePackerConfig {
        max_width: 1,
        max_height: 1,
        allow_rotation: false,
        force_max_dimensions: false,
        border_padding: 0,
        texture_padding: 0,
        texture_extrusion: 0,
        trim: false,
        texture_outlines: false,
    };
    let mut mtp = MultiTexturePacker::new_skyline(config);
    let texture = mrt::MemoryRGBA8Texture::from_memory(&[0, 0, 0, 0, 0, 0, 0, 0], 2, 1);
    assert_eq!(
        Err(PackError::TextureTooLargeToFitIntoAtlas),
        mtp.pack_own(String::from(""), texture)
    );
}

struct MyPacker<'a> {
    _packer: TexturePacker<'a, mrt::MemoryRGBA8Texture>,
}

#[test]
fn able_to_store_in_struct() {
    let packer = TexturePacker::new_skyline(TexturePackerConfig::default());

    MyPacker { _packer: packer };
}

#[test]
fn overflow_leaves_frames_untouched() {
    let mut packer = TexturePacker::new_skyline(plain_config(1, 1));
    let texture = opaque_texture(2, 1);
    assert_eq!(
        Err(PackError::TextureTooLargeToFitIntoAtlas),
        packer.pack_own(String::from("big"), texture)
    );
    assert_eq!(packer.get_frames().len(), 0);
    assert!(packer.get_frame(&String::from("big")).is_none());
}

#[test]
fn multi_page_fallback_opens_second_page() {
    // a page of 100 by 11 holds exactly ten 10 by 10 textures: the skyline
    // packer keeps placements strictly above the last pixel row
    let config = plain_config(100, 11);
    let mut mtp = MultiTexturePacker::new_skyline(config);
    for i in 0..20u32 {
        let texture = opaque_texture(10, 10);
        let r = mtp.pack_own(format!("tex-{}", i), texture);
        assert_eq!(Ok(()), r);
    }
    let pages = mtp.get_pages();
    assert_eq!(pages.len(), 2);
    for page in pages.iter() {
        let frames = page.get_frames();
        assert_eq!(frames.len(), 10);
        // no-overlap invariant
        for i in 0..frames.len() {
            for j in 0..frames.len() {
                if i != j {
                    assert!(!frames[i].frame.intersects(&frames[j].frame));
                }
            }
        }
        // containment invariant
        for f in frames.iter() {
            assert!(f.frame.x + f.frame.w <= 100);
            assert!(f.frame.y + f.frame.h <= 11);
        }
    }
}

#[test]
fn skyline_spans_cover_the_width() {
    let mut packer = TexturePacker::new_skyline(plain_config(64, 64));
    assert_eq!(Ok(()), packer.pack_own(String::from("a"), opaque_texture(10, 3)));
    assert_eq!(Ok(()), packer.pack_own(String::from("b"), opaque_texture(5, 7)));
    assert_eq!(Ok(()), packer.pack_own(String::from("c"), opaque_texture(20, 2)));
    // the skyline segment spans are contiguous and sum to the atlas width
    let mut expected_x: u32 = 0;
    let mut total: u32 = 0;
    for seg in packer.packer.skylines.iter() {
        assert_eq!(seg.x, expected_x);
        assert!(seg.w >= 1);
        expected_x += seg.w;
        total += seg.w;
    }
    assert_eq!(total, 64);
    // the list is minimal: merged segments never share a height
    for pair in packer.packer.skylines.windows(2) {
        assert_ne!(pair[0].y, pair[1].y);
    }
}

#[test]
fn multi_page_packing_prefers_the_first_page_with_room() {
    let config = plain_config(100, 11);
    let mut mtp = MultiTexturePacker::new_skyline(config);
    assert_eq!(Ok(()), mtp.pack_own(String::from("wide"), opaque_texture(60, 10)));
    // 50 pixels do not fit next to the 60 already placed: a second page opens
    assert_eq!(Ok(()), mtp.pack_own(String::from("half"), opaque_texture(50, 10)));
    assert_eq!(mtp.get_pages().len(), 2);
    // 30 pixels fit on the first page again, so no third page opens
    assert_eq!(Ok(()), mtp.pack_own(String::from("small"), opaque_texture(30, 10)));
    assert_eq!(mtp.get_pages().len(), 2);
    assert_eq!(mtp.get_pages()[0].get_frames().len(), 2);
    assert_eq!(mtp.get_pages()[1].get_frames().len(), 1);
}

#[test]
fn dimension_computation_with_border_padding() {
    let mut config = plain_config(1024, 1024);
    config.border_padding = 1;
    let mut packer: TexturePacker<mrt::MemoryRGBA8Texture> = TexturePacker::new_skyline(config);
    packer.frames.push(Frame {
        key: String::from("only"),
        frame: Rect::new(0, 0, 10, 10),
        rotated: false,
        trimmed: false,
        source: Rect::new(0, 0, 10, 10),
    });
    assert_eq!(packer.width(), 11);
    assert_eq!(packer.height(), 11);
}

#[test]
fn forced_dimensions_report_the_atlas_bounds() {
    let mut config = plain_config(300, 200);
    config.force_max_dimensions = true;
    let mut packer = TexturePacker::new_skyline(config);
    assert_eq!(packer.width(), 300);
    assert_eq!(packer.height(), 200);
    assert_eq!(Ok(()), packer.pack_own(String::from("a"), opaque_texture(4, 4)));
    assert_eq!(packer.width(), 300);
    assert_eq!(packer.height(), 200);
}

#[test]
fn computed_dimensions_follow_the_frames() {
    let mut packer = TexturePacker::new_skyline(plain_config(64, 64));
    assert_eq!(packer.width(), 0);
    assert_eq!(packer.height(), 0);
    assert_eq!(Ok(()), packer.pack_own(String::from("a"), opaque_texture(10, 4)));
    assert_eq!(packer.width(), 10);
    assert_eq!(packer.height(), 4);
}

#[test]
fn packing_records_frames_under_their_keys() {
    let mut packer = TexturePacker::new_skyline(plain_config(64, 64));
    assert!(packer.can_pack(&opaque_texture(10, 4)));
    assert_eq!(Ok(()), packer.pack_own(String::from("a"), opaque_texture(10, 4)));
    assert_eq!(Ok(()), packer.pack_own(String::from("b"), opaque_texture(6, 6)));
    let fa = packer.get_frame(&String::from("a")).expect("frame a");
    assert_eq!(fa.frame, Rect::new(0, 0, 10, 4));
    assert!(!fa.rotated);
    assert!(!fa.trimmed);
    let fb = packer.get_frame(&String::from("b")).expect("frame b");
    assert_eq!(fb.frame.w, 6);
    assert_eq!(fb.frame.h, 6);
    assert!(packer.get_frame(&String::from("c")).is_none());
}

#[test]
fn texture_padding_separates_frames() {
    let mut config = plain_config(64, 64);
    config.texture_padding = 2;
    let mut packer = TexturePacker::new_skyline(config);
    assert_eq!(Ok(()), packer.pack_own(String::from("a"), opaque_texture(4, 4)));
    assert_eq!(Ok(()), packer.pack_own(String::from("b"), opaque_texture(4, 4)));
    let fa = packer.get_frame(&String::from("a")).unwrap().frame;
    let fb = packer.get_frame(&String::from("b")).unwrap().frame;
    assert_eq!(fa, Rect::new(0, 0, 4, 4));
    // the second frame starts after the first frame plus its padding
    assert_eq!(fb, Rect::new(6, 0, 4, 4));
}

#[test]
fn packing_the_same_key_twice_overwrites() {
    let mut packer = TexturePacker::new_skyline(plain_config(64, 64));
    assert_eq!(Ok(()), packer.pack_own(String::from("a"), opaque_texture(4, 4)));
    assert_eq!(Ok(()), packer.pack_own(String::from("a"), opaque_texture(6, 2)));
    assert_eq!(packer.get_frames().len(), 1);
    let fa = packer.get_frame(&String::from("a")).unwrap();
    assert_eq!(fa.frame.w, 6);
    assert_eq!(fa.frame.h, 2);
}
