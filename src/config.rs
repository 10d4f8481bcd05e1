use vstd::prelude::*;

verus! {

/// Shape of the produced strip and the sampling parameters.
#[derive(Clone, Copy, Debug, PartialEq, Eq, Structural)]
pub struct StripConfig {
    /// Number of columns, one per angular bucket.
    pub output_width: u16,
    /// Number of rows that are emitted per column.
    pub output_height: u16,
    /// Angular sub-samples taken per column.
    pub deg_oversampling: u16,
    /// Radial rows near the center that have no LEDs and are discarded.
    pub center_offset: u16,
}

/// Columns of the standard strip: one per degree.
pub const OUTPUT_WIDTH: u16 = 360;

/// Rows of the standard strip.
pub const OUTPUT_HEIGHT: u16 = 32;

/// Angular sub-samples per degree of the standard strip.
pub const DEG_OVERSAMPLING: u16 = 10;

/// Number of LEDs missing in the center of the standard strip.
pub const CENTER_OFFSET: u16 = 3;

impl StripConfig {
    /// A configuration is usable when each column takes at least one sample.
    pub open spec fn wf(&self) -> bool {
        self.deg_oversampling > 0
    }

    /// Rasterized radial steps per column, the discarded center ones included.
    pub open spec fn steps(&self) -> int {
        self.output_height + self.center_offset
    }

    /// Bytes of an RGBA buffer of the strip.
    pub open spec fn output_len(&self) -> int {
        self.output_width * self.output_height * 4
    }

    /// The 360 x 32 strip with 10 sub-samples per degree and 3 center rows left out.
    pub fn standard() -> (r: StripConfig)
        ensures
            r.output_width == 360,
            r.output_height == 32,
            r.deg_oversampling == 10,
            r.center_offset == 3,
            r.wf(),
            r.steps() == 35,
    {
        StripConfig {
            output_width: OUTPUT_WIDTH,
            output_height: OUTPUT_HEIGHT,
            deg_oversampling: DEG_OVERSAMPLING,
            center_offset: CENTER_OFFSET,
        }
    }

    /// Rasterized radial steps per column (`output_height + center_offset`).
    pub fn output_steps(&self) -> (r: u32)
        ensures
            r as int == self.steps(),
    {
        self.output_height as u32 + self.center_offset as u32
    }
}

impl Default for StripConfig {
    fn default() -> (r: StripConfig)
        ensures
            r.output_width == 360,
            r.output_height == 32,
            r.deg_oversampling == 10,
            r.center_offset == 3,
    {
        StripConfig::standard()
    }
}

} // verus!
