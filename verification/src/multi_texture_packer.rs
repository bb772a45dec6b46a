//! Texture packer supporting multiple atlases.
//!
//! Creates a new page for textures that do not fit.  Textures packed after a
//! new page is added will still attempt to check each page for available
//! space.

use vstd::prelude::*;
use crate::packer::skyline_packer::{can_place_on, Skyline};
use crate::texture_packer::{lemma_frames_contained, lemma_frames_no_overlap};
use crate::texture::{spec_has_opaque_pixel, Texture};
use crate::texture_packer::{
    pack_outcome, packed_entries_ok, spec_source_of, PackError, PackResult, TexturePacker,
};
use crate::texture_packer_config::TexturePackerConfig;

verus! {

/// A texture of the given size is accepted by a brand new page built from
/// `config`.
pub open spec fn empty_page_can_pack(config: TexturePackerConfig, tw: int, th: int) -> bool {
    can_place_on(
        seq![Skyline { x: 0, y: 0, w: config.max_width }],
        config.max_width as int,
        config.max_height as int,
        config.allow_rotation,
        tw + config.spec_inflation(),
        th + config.spec_inflation(),
    )
}

/// Index of the first page whose tracker accepts a texture of the given
/// size; the page count when no page does.
pub open spec fn first_accepting_page<'a, T: Texture>(
    pages: Seq<TexturePacker<'a, T>>,
    tw: int,
    th: int,
) -> int
    decreases pages.len(),
{
    if pages.len() == 0 {
        0
    } else if pages[0].packer.spec_can_pack(tw, th) {
        0
    } else {
        1 + first_accepting_page(pages.drop_first(), tw, th)
    }
}

/// An accepting page behind a run of refusing pages is the first one.
proof fn lemma_first_accepting_hit<'a, T: Texture>(
    pages: Seq<TexturePacker<'a, T>>,
    tw: int,
    th: int,
    i: int,
)
    requires
        0 <= i < pages.len(),
        forall|j: int| 0 <= j < i ==> !(#[trigger] pages[j]).packer.spec_can_pack(tw, th),
        pages[i].packer.spec_can_pack(tw, th),
    ensures
        first_accepting_page(pages, tw, th) == i,
    decreases i,
{
    if i > 0 {
        assert(forall|j: int|
            0 <= j < i - 1 ==> #[trigger] pages.drop_first()[j] == pages[j + 1]);
        assert(pages.drop_first()[i - 1] == pages[i]);
        lemma_first_accepting_hit(pages.drop_first(), tw, th, i - 1);
    }
}

/// When every page refuses, the first accepting index is the page count.
proof fn lemma_first_accepting_none<'a, T: Texture>(
    pages: Seq<TexturePacker<'a, T>>,
    tw: int,
    th: int,
)
    requires
        forall|j: int|
            0 <= j < pages.len() ==> !(#[trigger] pages[j]).packer.spec_can_pack(tw, th),
    ensures
        first_accepting_page(pages, tw, th) == pages.len(),
    decreases pages.len(),
{
    if pages.len() > 0 {
        assert(forall|j: int|
            0 <= j < pages.drop_first().len() ==> #[trigger] pages.drop_first()[j] == pages[j
                + 1]);
        lemma_first_accepting_none(pages.drop_first(), tw, th);
    }
}

/// Texture packer supporting multiple atlas pages.
pub struct MultiTexturePacker<'a, T> {
    /// The configuration every page is built from.
    pub config: TexturePackerConfig,
    /// The pages, in the order they were opened.
    pub pages: Vec<TexturePacker<'a, T>>,
}

impl<'a, T: Texture> MultiTexturePacker<'a, T> {
    /// Every page is consistent and was built from the shared configuration.
    pub open spec fn wf(self) -> bool {
        &&& self.config.config_ok()
        &&& forall|i: int|
            0 <= i < self.pages@.len() ==> (#[trigger] self.pages@[i]).wf() && self.pages@[i].config
                == self.config
    }

    /// Get an array of all underlying single-atlas texture packers.
    pub fn get_pages(&self) -> (r: &Vec<TexturePacker<'a, T>>)
        ensures
            r@ == self.pages@,
    {
        &self.pages
    }

    /// Create a new packer using the skyline packing algorithm.
    pub fn new_skyline(config: TexturePackerConfig) -> (r: Self)
        requires
            config.config_ok(),
        ensures
            r.wf(),
            r.config == config,
            r.pages@.len() == 0,
    {
        Self { config, pages: Vec::new() }
    }

    /// Pack the `texture` into this packer, taking a reference of the texture object.
    pub fn pack_ref(&mut self, key: String, texture: &'a T) -> (r: PackResult<()>)
        requires
            old(self).wf(),
            texture.wf(),
            1 <= texture.spec_width(),
            1 <= texture.spec_height(),
            old(self).config.dims_ok(texture.spec_width() as int, texture.spec_height() as int),
            old(self).config.trim ==> spec_has_opaque_pixel(texture),
        ensures
            final(self).wf(),
            final(self).config == old(self).config,
            (r is Ok) <==> ((exists|i: int|
                0 <= i < old(self).pages@.len() && (#[trigger] old(
                    self,
                ).pages@[i]).packer.spec_can_pack(
                    texture.spec_width() as int,
                    texture.spec_height() as int,
                )) || empty_page_can_pack(
                old(self).config,
                texture.spec_width() as int,
                texture.spec_height() as int,
            )),
            !(r is Ok) ==> *final(self) == *old(self),
            (r is Ok) ==> ({
                let n = old(self).pages@.len() as int;
                let pi = first_accepting_page(
                    old(self).pages@,
                    texture.spec_width() as int,
                    texture.spec_height() as int,
                );
                &&& 0 <= pi <= n
                &&& (pi < n ==> final(self).pages@.len() == n)
                &&& (pi == n ==> final(self).pages@.len() == n + 1)
                &&& (pi < n ==> pack_outcome(
                    old(self).pages@[pi],
                    final(self).pages@[pi],
                    key@,
                    spec_source_of(texture, old(self).config.trim),
                    texture.spec_width(),
                    texture.spec_height(),
                ))
                &&& packed_entries_ok(
                    final(self).pages@[pi],
                    old(self).config,
                    key@,
                    spec_source_of(texture, old(self).config.trim),
                    texture.spec_width(),
                    texture.spec_height(),
                )
                &&& forall|j: int|
                    0 <= j < n && j != pi ==> final(self).pages@[j] == #[trigger] old(
                        self,
                    ).pages@[j]
            }),
    {
        let ghost pre = *old(self);
        let n = self.pages.len();
        let mut i: usize = 0;
        while i < n
            invariant
                *self == pre,
                pre == *old(self),
                pre.wf(),
                texture.wf(),
                1 <= texture.spec_width(),
                1 <= texture.spec_height(),
                pre.config.dims_ok(texture.spec_width() as int, texture.spec_height() as int),
                pre.config.trim ==> spec_has_opaque_pixel(texture),
                n == self.pages@.len(),
                i <= n,
                forall|j: int|
                    0 <= j < i ==> !(#[trigger] pre.pages@[j]).packer.spec_can_pack(
                        texture.spec_width() as int,
                        texture.spec_height() as int,
                    ),
            decreases n - i,
        {
            if self.pages[i].can_pack(texture) {
                proof {
                    lemma_first_accepting_hit(
                        pre.pages@,
                        texture.spec_width() as int,
                        texture.spec_height() as int,
                        i as int,
                    );
                }
                let r = self.pages[i].pack_ref(key, texture);
                proof {
                    assert(r is Ok);
                    assert(self.pages@.len() == pre.pages@.len());
                    assert(forall|j: int|
                        0 <= j < self.pages@.len() && j != i as int ==> self.pages@[j]
                            == #[trigger] pre.pages@[j]);
                    assert(packed_entries_ok(
                        self.pages@[i as int],
                        pre.config,
                        key@,
                        spec_source_of(texture, pre.config.trim),
                        texture.spec_width(),
                        texture.spec_height(),
                    ));
                }
                return r;
            }
            i = i + 1;
        }
        let mut page = TexturePacker::new_skyline(self.config);
        proof {
            lemma_first_accepting_none(
                pre.pages@,
                texture.spec_width() as int,
                texture.spec_height() as int,
            );
            assert(page.packer.skylines@ =~= seq![
                Skyline { x: 0, y: 0, w: pre.config.max_width },
            ]);
        }
        let r = page.pack_ref(key, texture);
        match r {
            Ok(u) => {
                self.pages.push(page);
                proof {
                    let pi = pre.pages@.len() as int;
                    assert(self.pages@[pi] == page);
                    assert(forall|j: int|
                        0 <= j < pre.pages@.len() ==> self.pages@[j] == #[trigger] pre.pages@[j]);
                    assert(packed_entries_ok(
                        self.pages@[pi],
                        pre.config,
                        key@,
                        spec_source_of(texture, pre.config.trim),
                        texture.spec_width(),
                        texture.spec_height(),
                    ));
                }
                Ok(u)
            },
            Err(e) => {
                proof {
                    assert(*self == pre);
                }
                Err(e)
            },
        }
    }

    /// Pack the `texture` into this packer, taking ownership of the texture object.
    pub fn pack_own(&mut self, key: String, texture: T) -> (r: PackResult<()>)
        requires
            old(self).wf(),
            texture.wf(),
            1 <= texture.spec_width(),
            1 <= texture.spec_height(),
            old(self).config.dims_ok(texture.spec_width() as int, texture.spec_height() as int),
            old(self).config.trim ==> spec_has_opaque_pixel(&texture),
        ensures
            final(self).wf(),
            final(self).config == old(self).config,
            (r is Ok) <==> ((exists|i: int|
                0 <= i < old(self).pages@.len() && (#[trigger] old(
                    self,
                ).pages@[i]).packer.spec_can_pack(
                    texture.spec_width() as int,
                    texture.spec_height() as int,
                )) || empty_page_can_pack(
                old(self).config,
                texture.spec_width() as int,
                texture.spec_height() as int,
            )),
            !(r is Ok) ==> *final(self) == *old(self),
            (r is Ok) ==> ({
                let n = old(self).pages@.len() as int;
                let pi = first_accepting_page(
                    old(self).pages@,
                    texture.spec_width() as int,
                    texture.spec_height() as int,
                );
                &&& 0 <= pi <= n
                &&& (pi < n ==> final(self).pages@.len() == n)
                &&& (pi == n ==> final(self).pages@.len() == n + 1)
                &&& (pi < n ==> pack_outcome(
                    old(self).pages@[pi],
                    final(self).pages@[pi],
                    key@,
                    spec_source_of(&texture, old(self).config.trim),
                    texture.spec_width(),
                    texture.spec_height(),
                ))
                &&& packed_entries_ok(
                    final(self).pages@[pi],
                    old(self).config,
                    key@,
                    spec_source_of(&texture, old(self).config.trim),
                    texture.spec_width(),
                    texture.spec_height(),
                )
                &&& forall|j: int|
                    0 <= j < n && j != pi ==> final(self).pages@[j] == #[trigger] old(
                        self,
                    ).pages@[j]
            }),
    {
        let ghost pre = *old(self);
        let n = self.pages.len();
        let mut i: usize = 0;
        while i < n
            invariant
                *self == pre,
                pre == *old(self),
                pre.wf(),
                texture.wf(),
                1 <= texture.spec_width(),
                1 <= texture.spec_height(),
                pre.config.dims_ok(texture.spec_width() as int, texture.spec_height() as int),
                pre.config.trim ==> spec_has_opaque_pixel(&texture),
                n == self.pages@.len(),
                i <= n,
                forall|j: int|
                    0 <= j < i ==> !(#[trigger] pre.pages@[j]).packer.spec_can_pack(
                        texture.spec_width() as int,
                        texture.spec_height() as int,
                    ),
            decreases n - i,
        {
            if self.pages[i].can_pack(&texture) {
                proof {
                    lemma_first_accepting_hit(
                        pre.pages@,
                        texture.spec_width() as int,
                        texture.spec_height() as int,
                        i as int,
                    );
                }
                let r = self.pages[i].pack_own(key, texture);
                proof {
                    assert(r is Ok);
                    assert(self.pages@.len() == pre.pages@.len());
                    assert(forall|j: int|
                        0 <= j < self.pages@.len() && j != i as int ==> self.pages@[j]
                            == #[trigger] pre.pages@[j]);
                    assert(packed_entries_ok(
                        self.pages@[i as int],
                        pre.config,
                        key@,
                        spec_source_of(&texture, pre.config.trim),
                        texture.spec_width(),
                        texture.spec_height(),
                    ));
                }
                return r;
            }
            i = i + 1;
        }
        let mut page = TexturePacker::new_skyline(self.config);
        proof {
            lemma_first_accepting_none(
                pre.pages@,
                texture.spec_width() as int,
                texture.spec_height() as int,
            );
            assert(page.packer.skylines@ =~= seq![
                Skyline { x: 0, y: 0, w: pre.config.max_width },
            ]);
        }
        let r = page.pack_own(key, texture);
        match r {
            Ok(u) => {
                self.pages.push(page);
                proof {
                    let pi = pre.pages@.len() as int;
                    assert(self.pages@[pi] == page);
                    assert(forall|j: int|
                        0 <= j < pre.pages@.len() ==> self.pages@[j] == #[trigger] pre.pages@[j]);
                    assert(packed_entries_ok(
                        self.pages@[pi],
                        pre.config,
                        key@,
                        spec_source_of(&texture, pre.config.trim),
                        texture.spec_width(),
                        texture.spec_height(),
                    ));
                }
                Ok(u)
            },
            Err(e) => {
                proof {
                    assert(*self == pre);
                }
                Err(e)
            },
        }
    }
}

/// Every page of a multi-page packer independently satisfies the
/// no-overlap and containment invariants: distinct frames on one page share
/// no pixel, and each frame lies inside the atlas bounds as long as the
/// border padding stays within the inter-frame padding plus the extruded
/// pixels.
pub proof fn lemma_page_invariants<'a, T: Texture>(
    mtp: &MultiTexturePacker<'a, T>,
    pi: int,
    k1: int,
    k2: int,
)
    requires
        mtp.wf(),
        0 <= pi < mtp.pages@.len(),
        0 <= k1 < mtp.pages@[pi].frames@.len(),
        0 <= k2 < mtp.pages@[pi].frames@.len(),
        k1 != k2,
        mtp.config.border_padding <= mtp.config.spec_inflation(),
    ensures
        mtp.pages@[pi].frames@[k1].frame.spec_disjoint(mtp.pages@[pi].frames@[k2].frame),
        mtp.pages@[pi].frames@[k1].frame.x + mtp.pages@[pi].frames@[k1].frame.w
            <= mtp.config.max_width,
        mtp.pages@[pi].frames@[k1].frame.y + mtp.pages@[pi].frames@[k1].frame.h
            <= mtp.config.max_height,
{
    let page = mtp.pages@[pi];
    lemma_frames_no_overlap(&page, k1, k2);
    lemma_frames_contained(&page, k1);
}

} // verus!
