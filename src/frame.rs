use vstd::prelude::*;

verus! {

/// What a viewer does with a frame once its delay has passed.
#[derive(Clone, Copy, Debug, PartialEq, Eq, Structural)]
pub enum Disposal {
    /// No action is required.
    Any,
    /// Leave the frame in place.
    Keep,
    /// Restore the background color.
    Background,
    /// Restore what was shown before.
    Previous,
}

/// A decoded frame: `width * height` pixels, four bytes (R, G, B, A) each, row by row.
#[derive(Clone, Debug)]
pub struct SourceFrame {
    pub width: u16,
    pub height: u16,
    pub buffer: Vec<u8>,
    pub delay: u16,
    pub dispose: Disposal,
    pub transparent: Option<u8>,
}

/// A produced strip frame, laid out as a source frame is.
#[derive(Clone, Debug)]
pub struct OutputFrame {
    pub width: u16,
    pub height: u16,
    pub buffer: Vec<u8>,
    pub delay: u16,
    pub dispose: Disposal,
    pub transparent: Option<u8>,
}

/// The longer of the two half-sizes is cut to the shorter: the largest radius
/// around the center `(width / 2, height / 2)` that stays inside the frame.
pub open spec fn vector_length(width: int, height: int) -> int {
    if width / 2 <= height / 2 {
        width / 2
    } else {
        height / 2
    }
}

impl SourceFrame {
    /// The buffer holds exactly one RGBA quadruple per pixel.
    pub open spec fn wf(&self) -> bool {
        self.buffer@.len() == self.width * self.height * 4
    }

    pub open spec fn radius(&self) -> int {
        vector_length(self.width as int, self.height as int)
    }

    /// Sampling radius: the smaller of the two integer half-sizes.
    pub fn vector_length(&self) -> (r: u16)
        ensures
            r as int == self.radius(),
    {
        let center_x = self.width / 2;
        let center_y = self.height / 2;
        if center_x <= center_y {
            center_x
        } else {
            center_y
        }
    }
}

impl OutputFrame {
    /// The buffer holds exactly one RGBA quadruple per pixel.
    pub open spec fn wf(&self) -> bool {
        self.buffer@.len() == self.width * self.height * 4
    }
}

} // verus!
