//! What drawing a tree needs to decide: the drawing area, how much of a
//! branch is drawn, and how large a leaf is drawn.
use vstd::prelude::*;

use crate::branch::Branch;
use crate::growth::{GROWTH_MAX, Growth, segment_size};
use vstd::std_specs::convert::FromSpec;
use crate::leaf::Leaf;

verus! {

/// The size of the area a tree is drawn in.
#[derive(Clone, Copy)]
pub struct Viewport {
    width: u32,
    height: u32,
}

impl View for Viewport {
    type V = (u32, u32);

    closed spec fn view(&self) -> (u32, u32) {
        (self.width, self.height)
    }
}

impl From<(u32, u32)> for Viewport {
    fn from(size: (u32, u32)) -> (viewport: Self) {
        let (width, height) = size;
        Self { width, height }
    }
}

impl vstd::std_specs::convert::FromSpecImpl<(u32, u32)> for Viewport {
    open spec fn obeys_from_spec() -> bool {
        true
    }

    closed spec fn from_spec(size: (u32, u32)) -> Self {
        Viewport { width: size.0, height: size.1 }
    }
}

impl From<Viewport> for (u32, u32) {
    fn from(viewport: Viewport) -> (size: Self) {
        (viewport.width, viewport.height)
    }
}

impl vstd::std_specs::convert::FromSpecImpl<Viewport> for (u32, u32) {
    open spec fn obeys_from_spec() -> bool {
        true
    }

    closed spec fn from_spec(viewport: Viewport) -> Self {
        (viewport.width, viewport.height)
    }
}

/// Converting a size into a viewport keeps it, and converting a viewport
/// back gives its size: the two conversions undo each other.
pub proof fn lemma_viewport_round_trip(size: (u32, u32), viewport: Viewport)
    ensures
        <Viewport as FromSpec<(u32, u32)>>::from_spec(size)@ == size,
        <(u32, u32) as FromSpec<Viewport>>::from_spec(viewport) == viewport@,
        <(u32, u32) as FromSpec<Viewport>>::from_spec(<Viewport as FromSpec<(u32, u32)>>::from_spec(size)) == size,
        <Viewport as FromSpec<(u32, u32)>>::from_spec(<(u32, u32) as FromSpec<Viewport>>::from_spec(viewport)) == viewport,
{
}

impl<L> Leaf<L> {
    /// The radius at which the leaf is drawn, `radius` being its full
    /// radius in whole units: none while its growth has not yet entered the
    /// last `radius` units; then the amount grown past that point, so that a
    /// leaf opens gradually up to its full radius.
    pub fn get_drawn_radius(&self, radius: u16) -> (drawn: Option<u16>)
        ensures
            match drawn {
                Some(r) => {
                    &&& self.growth@.amount > GROWTH_MAX - radius
                    &&& r == self.growth@.amount - (GROWTH_MAX - radius)
                    &&& 1 <= r <= radius
                },
                None => self.growth@.amount <= GROWTH_MAX - radius,
            },
    {
        let growth_amount = self.growth.get_amount();
        let growth_threshold = Growth::MAX - radius;

        if growth_amount <= growth_threshold {
            return None;
        }
        Some(growth_amount - growth_threshold)
    }
}

impl<B, L> Branch<B, L> {
    /// How the branch is drawn: as segments, the growth factor being the size
    /// of one segment. Gives the total number of segments (the full amount
    /// over the factor) and the number of segments grown so far (the amount
    /// over the size of one of those segments).
    pub fn get_drawn_segments(&self) -> (segments: (u16, u16))
        requires
            self.growth@.factor != 0,
        ensures
            segments.0 == GROWTH_MAX / self.growth@.factor,
            segments.0 >= 1,
            segments.1 == self.growth@.amount / segment_size(segments.0),
    {
        let growth = &self.growth;
        let ghost factor = growth@.factor;
        assert(GROWTH_MAX / factor >= 1) by (nonlinear_arith)
            requires
                factor != 0,
                factor <= GROWTH_MAX,
        ;
        // Since the growth factor is set to segment size,
        // amount factor means total segment count
        let seg_c = growth.get_amount_factor();
        let grown_seg_c = growth.get_grown_segment_count(seg_c);
        (seg_c, grown_seg_c)
    }
}

} // verus!
