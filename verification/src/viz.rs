use vstd::prelude::*;
use crate::drawing::{frame_size_fits, frame_wf, FrameBuffer};

verus! {

/// What every visualisation has: its size and its name.
pub struct VisualizationBase {
    pub width: u32,
    pub height: u32,
    pub name: &'static str,
}

impl VisualizationBase {
    /// A visualisation base of the given size and name.
    pub fn new(width: u32, height: u32, name: &'static str) -> (b: VisualizationBase)
        ensures
            b.width == width,
            b.height == height,
            b.name@ == name@,
    {
        VisualizationBase { width, height, name }
    }

    /// A blank frame of the visualisation's size.
    pub fn create_frame_buffer(&self) -> (fb: FrameBuffer)
        requires
            frame_size_fits(self.width, self.height),
        ensures
            frame_wf(fb@),
            fb@.width == self.width,
            fb@.height == self.height,
            fb@.bytes == Seq::new((4 * (self.width * self.height)) as nat, |i: int| 0u8),
    {
        FrameBuffer::new(self.width, self.height)
    }
}

/// The visualisation of Pythagoras' theorem.
pub struct PythagorasViz {
    base: VisualizationBase,
}

impl PythagorasViz {
    /// The name under which the visualisation is listed.
    pub open spec fn title() -> Seq<char> {
        "Pythagoras Theorem"@
    }

    /// The visualisation for a `width`-by-`height` area.
    pub fn new(width: u32, height: u32) -> (v: PythagorasViz)
        ensures
            v.size() == (width, height),
            v.spec_name() == Self::title(),
    {
        PythagorasViz { base: VisualizationBase::new(width, height, "Pythagoras Theorem") }
    }

    /// The size of the area the visualisation draws.
    pub closed spec fn size(&self) -> (u32, u32) {
        (self.base.width, self.base.height)
    }

    /// The visualisation's name.
    pub closed spec fn spec_name(&self) -> Seq<char> {
        self.base.name@
    }

    /// The visualisation's name.
    pub fn name(&self) -> (n: &'static str)
        ensures
            n@ == self.spec_name(),
    {
        self.base.name
    }

    /// The visualisation's base.
    pub fn base(&self) -> (b: &VisualizationBase)
        ensures
            (b.width, b.height) == self.size(),
            b.name@ == self.spec_name(),
    {
        &self.base
    }
}

} // verus!
