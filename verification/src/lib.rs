//! Packs rectangular textures into one or more fixed-size texture atlases.
//!
//! The core is a bin-packing engine: free-space trackers (skyline as the
//! primary strategy, with guillotine, max-rects and shelf variants), the
//! rectangle arithmetic they depend on, and the orchestration that turns raw
//! textures into placed, padded, optionally trimmed and rotated frames,
//! overflowing into additional atlas pages when a page is full.

pub mod buffer2d;
pub mod color;
pub mod exporter;
pub mod frame;
pub mod guillotine_packer;
pub mod importer;
pub mod maxrect_packer;
pub mod multi_texture_packer;
pub mod packer;
pub mod rect;
pub mod shelf_packer;
pub mod skyline_packer;
pub mod texture;
pub mod texture_packer;
pub mod texture_packer_config;

pub use crate::frame::Frame;
pub use crate::multi_texture_packer::MultiTexturePacker;
pub use crate::rect::Rect;
pub use crate::texture_packer::TexturePacker;
pub use crate::texture_packer_config::TexturePackerConfig;
