//! Free-space tracker interface shared by the packing strategies.

use vstd::prelude::*;
use crate::frame::Frame;
use crate::rect::Rect;

pub use self::skyline_packer::SkylinePacker;

pub mod skyline_packer;

verus! {

/// A free-space tracker: finds and commits placements for rectangles of a
/// requested size inside a fixed atlas border, and reports whether a
/// rectangle could be placed without committing it.
pub trait Packer {
    /// The tracker's internal bookkeeping is consistent.
    spec fn wf(&self) -> bool;

    /// The requested rectangle is small enough for the tracker's arithmetic.
    spec fn req_ok(&self, texture_rect: Rect) -> bool;

    /// Find a placement for `texture_rect`, commit it, and describe it as a
    /// [Frame] under `key`; `None` if it does not fit.
    fn pack(&mut self, key: String, texture_rect: &Rect) -> (r: Option<Frame>)
        requires
            old(self).wf(),
            old(self).req_ok(*texture_rect),
        ensures
            final(self).wf(),
    ;

    /// Dry run: report whether `pack` would succeed, without mutating state.
    fn can_pack(&self, texture_rect: &Rect) -> (r: bool)
        requires
            self.wf(),
            self.req_ok(*texture_rect),
    ;
}

} // verus!
