//! Immutable configuration snapshot read by a packer at construction.

use vstd::prelude::*;

verus! {

/// Configuration for a texture packer.
#[derive(Debug, Copy, Clone)]
pub struct TexturePackerConfig {
    /// Max width of the packed image. Default value is `1024`.
    pub max_width: u32,
    /// Max height of the packed image. Default value is `1024`.
    pub max_height: u32,
    /// True to allow rotation of the input images. Default value is `true`. Images rotated will be
    /// rotated 90 degrees clockwise.
    pub allow_rotation: bool,
    /// If enabled, the size of the output texture will always match [max_width] and [max_height]
    /// leaving potentially much unused space on the texture.
    pub force_max_dimensions: bool,
    /// Size of the padding on the outer edge of the packed image in pixel. Default value is `0`.
    pub border_padding: u32,
    /// Size of the padding between frames in pixel. Default value is `2`.
    pub texture_padding: u32,
    /// Size of the repeated pixels at the border of each image. Default value is `0`.
    pub texture_extrusion: u32,
    /// True to trim the empty pixels of the input images. Default value is `true`.
    pub trim: bool,
    /// True to draw the red line on the edge of the each frames. Useful for debugging. Default
    /// value is `false`.
    pub texture_outlines: bool,
}

impl TexturePackerConfig {
    /// The atlas bounds denote real area and the padding values are small
    /// enough that none of the paddings' arithmetic can exceed `u32`.
    pub open spec fn config_ok(self) -> bool {
        &&& 1 <= self.max_width
        &&& 1 <= self.max_height
        &&& self.max_width + self.border_padding + self.border_padding <= u32::MAX
        &&& self.max_height + self.border_padding + self.border_padding <= u32::MAX
        &&& self.texture_padding + self.texture_extrusion * 2 <= u32::MAX
    }

    /// Total inflation added to a requested width or height before it is
    /// handed to a free-space tracker: inter-frame padding plus the extruded
    /// pixels on both sides.
    pub open spec fn spec_inflation(self) -> int {
        self.texture_padding + self.texture_extrusion * 2
    }

    /// A request of this size can go through the placement arithmetic, in
    /// either orientation, without exceeding `u32`.
    pub open spec fn dims_ok(self, w: int, h: int) -> bool {
        &&& w + self.spec_inflation() + self.max_width <= u32::MAX
        &&& h + self.spec_inflation() + self.max_height <= u32::MAX
        &&& w + self.spec_inflation() + self.max_height <= u32::MAX
        &&& h + self.spec_inflation() + self.max_width <= u32::MAX
    }
}

impl Default for TexturePackerConfig {
    /// 1024 by 1024 atlases, rotation and trimming enabled, two pixels of
    /// padding between frames, no border padding, extrusion or outlines.
    fn default() -> (r: TexturePackerConfig)
        ensures
            r == (TexturePackerConfig {
                max_width: 1024,
                max_height: 1024,
                allow_rotation: true,
                force_max_dimensions: false,
                border_padding: 0,
                texture_padding: 2,
                texture_extrusion: 0,
                trim: true,
                texture_outlines: false,
            }),
    {
        TexturePackerConfig {
            max_width: 1024,
            max_height: 1024,
            allow_rotation: true,
            force_max_dimensions: false,
            border_padding: 0,
            texture_padding: 2,
            texture_extrusion: 0,
            trim: true,
            texture_outlines: false,
        }
    }
}

} // verus!
