use texture_packer::exporter::image_exporter::ImageExporter;
use texture_packer::exporter::{BackgroundColorSettings, Exporter};
use texture_packer::importer::image_importer::ImageImporter;
use texture_packer::rect::Rect;
use texture_packer::texture::memory_rgba8_texture::{MemoryRGBA8Texture, RGBA8};
use texture_packer::texture::sub_texture::SubTexture;
use texture_packer::texture::{Pixel, Texture};
use texture_packer::texture_packer::{trim_texture, TexturePacker};
use texture_packer::texture_packer_config::TexturePackerConfig;

fn numbered_texture(w: u32, h: u32) -> MemoryRGBA8Texture {
    let mut bytes = Vec::new();
    for i in 0..(w * h) {
        bytes.push((4 * i) as u8);
        bytes.push((4 * i + 1) as u8);
        bytes.push((4 * i + 2) as u8);
        bytes.push(255);
    }
    MemoryRGBA8Texture::from_memory(&bytes, w, h)
}

fn base_config(max_width: u32, max_height: u32) -> TexturePackerConfig {
    TexturePackerConfig {
        max_width,
        max_height,
        allow_rotation: false,
        force_max_dimensions: false,
        border_padding: 0,
        texture_padding: 0,
        texture_extrusion: 0,
        trim: false,
        texture_outlines: false,
    }
}

#[test]
fn memory_texture_pixels_round_trip() {
    let t = numbered_texture(3, 2);
    assert_eq!(t.width(), 3);
    assert_eq!(t.height(), 2);
    let p = t.get(2, 1).expect("pixel");
    assert_eq!(p, RGBA8 { r: 20, g: 21, b: 22, a: 255 });
    let q = t.get_rotated(0, 2).expect("pixel");
    // the rotated read maps (x, y) to (y, height - x - 1)
    assert_eq!(q, t.get(2, 1).unwrap());
}

#[test]
fn memory_texture_set_overwrites_one_pixel() {
    let mut t = numbered_texture(2, 2);
    let val = RGBA8 { r: 9, g: 8, b: 7, a: 6 };
    t.set(1, 0, val);
    assert_eq!(t.get(1, 0), Some(val));
    assert_eq!(t.get(0, 0), Some(RGBA8 { r: 0, g: 1, b: 2, a: 255 }));
    assert_eq!(t.get(0, 1), Some(RGBA8 { r: 8, g: 9, b: 10, a: 255 }));
}

#[test]
fn sub_texture_offsets_reads() {
    let t = numbered_texture(4, 4);
    let sub = SubTexture::from_ref(&t, Rect::new(1, 2, 2, 2));
    assert_eq!(sub.width(), 2);
    assert_eq!(sub.height(), 2);
    assert_eq!(sub.get(0, 0), t.get(1, 2));
    assert_eq!(sub.get(1, 1), t.get(2, 3));
}

#[test]
fn trim_finds_the_opaque_bounding_box() {
    // a 4 by 4 texture whose only opaque pixels sit in the middle 2 by 2
    let mut bytes = vec![0u8; 64];
    for (x, y) in [(1u32, 1u32), (2, 1), (1, 2), (2, 2)] {
        let base = (4 * (y * 4 + x)) as usize;
        bytes[base] = 1;
        bytes[base + 3] = 255;
    }
    let t = MemoryRGBA8Texture::from_memory(&bytes, 4, 4);
    assert_eq!(trim_texture(&t), Rect::new(1, 1, 2, 2));
}

#[test]
fn trim_is_idempotent_on_opaque_borders() {
    let t = numbered_texture(3, 3);
    assert_eq!(trim_texture(&t), Rect::new(0, 0, 3, 3));
}

#[test]
fn trimmed_packing_records_the_source_box() {
    let mut bytes = vec![0u8; 64];
    for (x, y) in [(1u32, 1u32), (2, 1), (1, 2), (2, 2)] {
        let base = (4 * (y * 4 + x)) as usize;
        bytes[base] = 1;
        bytes[base + 3] = 255;
    }
    let t = MemoryRGBA8Texture::from_memory(&bytes, 4, 4);
    let mut config = base_config(16, 16);
    config.trim = true;
    let mut packer = TexturePacker::new_skyline(config);
    assert_eq!(Ok(()), packer.pack_own(String::from("a"), t));
    let f = packer.get_frame(&String::from("a")).unwrap();
    assert!(f.trimmed);
    assert_eq!(f.frame.w, 2);
    assert_eq!(f.frame.h, 2);
    // the source remembers the trim offset and the original size
    assert_eq!(f.source, Rect::new(1, 1, 4, 4));
}

#[test]
fn round_trip_read_without_rotation() {
    let t = numbered_texture(2, 2);
    let expect = t.clone();
    let mut packer = TexturePacker::new_skyline(base_config(16, 16));
    assert_eq!(Ok(()), packer.pack_own(String::from("a"), t));
    let f = packer.get_frame(&String::from("a")).unwrap().frame;
    for i in 0..2u32 {
        for j in 0..2u32 {
            assert_eq!(packer.get(f.x + i, f.y + j), expect.get(i, j));
        }
    }
}

#[test]
fn rotation_round_trip() {
    // a 1 by 3 texture in a 3 by 3 atlas can only be placed on its side
    let t = numbered_texture(1, 3);
    let expect = t.clone();
    let mut config = base_config(3, 3);
    config.allow_rotation = true;
    let mut packer = TexturePacker::new_skyline(config);
    assert_eq!(Ok(()), packer.pack_own(String::from("a"), t));
    let frame = packer.get_frame(&String::from("a")).unwrap().clone();
    assert!(frame.rotated);
    assert_eq!(frame.frame.w, 3);
    assert_eq!(frame.frame.h, 1);
    for i in 0..3u32 {
        // the atlas pixel is the source pixel at the
        // 90-degree-clockwise-inverse-mapped coordinate
        assert_eq!(
            packer.get(frame.frame.x + i, frame.frame.y),
            expect.get(0, 2 - i)
        );
    }
}

#[test]
fn outlines_draw_on_frame_edges() {
    let t = numbered_texture(3, 3);
    let mut config = base_config(16, 16);
    config.texture_outlines = true;
    let mut packer = TexturePacker::new_skyline(config);
    assert_eq!(Ok(()), packer.pack_own(String::from("a"), t));
    let f = packer.get_frame(&String::from("a")).unwrap().frame;
    assert_eq!(packer.get(f.x, f.y), Some(RGBA8::outline()));
    // an interior pixel keeps the source value
    assert_eq!(
        packer.get(f.x + 1, f.y + 1),
        Some(RGBA8 { r: 16, g: 17, b: 18, a: 255 })
    );
}

#[test]
fn export_produces_the_composed_pixels() {
    let t = numbered_texture(2, 2);
    let expect = t.clone();
    let mut packer = TexturePacker::new_skyline(base_config(8, 8));
    assert_eq!(Ok(()), packer.pack_own(String::from("a"), t));
    let image = ImageExporter::export(&packer, None).expect("export");
    assert_eq!(image.width(), 2);
    assert_eq!(image.height(), 2);
    let rgba = image.to_rgba8();
    for x in 0..2u32 {
        for y in 0..2u32 {
            let p = expect.get(x, y).unwrap();
            assert_eq!(rgba.get_pixel(x, y).0, [p.r, p.g, p.b, p.a]);
        }
    }
}

#[test]
fn export_applies_the_background_policy() {
    // one transparent pixel next to one barely visible pixel
    let bytes = [0u8, 0, 0, 0, 10, 20, 30, 4];
    let t = MemoryRGBA8Texture::from_memory(&bytes, 2, 1);
    let settings = BackgroundColorSettings {
        color: RGBA8 { r: 1, g: 2, b: 3, a: 255 },
        region_transparency_threshold: Some(5),
        discard_own_alpha_on_threshold_test: false,
    };
    let image = ImageExporter::export(&t, Some(settings)).expect("export");
    let rgba = image.to_rgba8();
    // both pixels fall at or under the threshold and take the background color
    assert_eq!(rgba.get_pixel(0, 0).0, [1, 2, 3, 255]);
    assert_eq!(rgba.get_pixel(1, 0).0, [1, 2, 3, 255]);
}

#[test]
fn export_rejects_an_empty_texture() {
    let t = MemoryRGBA8Texture::from_memory(&[], 0, 0);
    let r = ImageExporter::export(&t, None);
    assert_eq!(r.unwrap_err(), String::from("Width or height of this texture is zero"));
}

#[test]
fn import_decodes_what_export_encoded() {
    let t = numbered_texture(2, 2);
    let image = ImageExporter::export(&t, None).expect("export");
    let mut encoded: Vec<u8> = Vec::new();
    image
        .write_to(&mut std::io::Cursor::new(&mut encoded), image::ImageFormat::Png)
        .expect("encode");
    let decoded = ImageImporter::import_from_memory(&encoded).expect("import");
    assert_eq!(decoded.width(), 2);
    assert_eq!(decoded.height(), 2);
    let rgba = decoded.to_rgba8();
    for x in 0..2u32 {
        for y in 0..2u32 {
            let p = t.get(x, y).unwrap();
            assert_eq!(rgba.get_pixel(x, y).0, [p.r, p.g, p.b, p.a]);
        }
    }
}

#[test]
fn import_rejects_garbage() {
    assert!(ImageImporter::import_from_memory(&[1, 2, 3, 4]).is_err());
}

#[test]
fn pixel_transparency_sentinels() {
    assert!(RGBA8::transparency().unwrap().is_transparent());
    assert!(!RGBA8 { r: 0, g: 0, b: 0, a: 1 }.is_transparent());
    assert_eq!(RGBA8::outline(), RGBA8 { r: 255, g: 0, b: 0, a: 255 });
}

#[test]
fn extrusion_repeats_edge_pixels() {
    let t = numbered_texture(2, 2);
    let expect = t.clone();
    let mut config = base_config(16, 16);
    config.texture_padding = 2;
    config.texture_extrusion = 1;
    let mut packer = TexturePacker::new_skyline(config);
    assert_eq!(Ok(()), packer.pack_own(String::from("a"), t));
    let f = packer.get_frame(&String::from("a")).unwrap().frame;
    // one pixel to the right of the frame the edge pixel repeats
    assert_eq!(packer.get(f.x + 2, f.y), expect.get(1, 0));
    // one pixel below the frame the bottom edge repeats
    assert_eq!(packer.get(f.x, f.y + 2), expect.get(0, 1));
}

#[test]
fn pack_ref_borrows_the_texture() {
    let t = numbered_texture(3, 3);
    let mut packer = TexturePacker::new_skyline(base_config(16, 16));
    assert_eq!(Ok(()), packer.pack_ref(String::from("a"), &t));
    let f = packer.get_frame(&String::from("a")).unwrap().frame;
    assert_eq!(f, Rect::new(0, 0, 3, 3));
    assert_eq!(packer.get(f.x + 2, f.y + 2), t.get(2, 2));
}

#[test]
fn owned_sub_texture_writes_through() {
    let t = numbered_texture(4, 4);
    let mut sub = SubTexture::new(t, Rect::new(1, 1, 2, 2));
    let val = RGBA8 { r: 200, g: 100, b: 50, a: 255 };
    sub.set(0, 1, val);
    assert_eq!(sub.get(0, 1), Some(val));
    assert_eq!(sub.get(0, 0), Some(RGBA8 { r: 20, g: 21, b: 22, a: 255 }));
}
