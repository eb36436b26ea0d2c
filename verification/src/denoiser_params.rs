//! The settings of the pipeline and the ranges in which the panel lets the user move them.

use vstd::prelude::*;

verus! {

/// The settings that are whole numbers, switches or names.
pub struct DenoiserParams {
    /// The picture file.
    pub path: String,
    /// The radius of the block around a pixel whose mean it is compared with.
    pub block: u32,
    /// How much darker than the mean a pixel may be and still count as white.
    pub delta: i32,
    /// By how much black spreads when specks are removed.
    pub erase_k: u8,
    /// By how much white spreads afterwards.
    pub dilate_k: u8,
    /// Columns with fewer dark pixels are wiped.
    pub threshold: u8,
    /// How many votes a line needs.
    pub line_threshold: i32,
    /// The aperture of the edge detector.
    pub aperture: i32,
    /// Whether the edge detector takes the Euclidean length of a gradient.
    pub l2_gradient: bool,
    /// The thickness of the horizontal white lines.
    pub hl_thickness: u32,
    /// The distance between the horizontal white lines.
    pub hl_step: i32,
    /// The thickness of the vertical white lines.
    pub vl_thickness: u32,
    /// The distance between the vertical white lines.
    pub vl_step: i32,
}

/// The largest value of the fields that have no tighter range.
pub const FIELD_MAX: u32 = 99999;

/// The range of the aperture.
pub const APERTURE_MIN: i32 = 3;

pub const APERTURE_MAX: i32 = 7;

/// The range of the thickness of the white lines and of the distance between them.
pub const RULING_MIN: u32 = 1;

pub const RULING_MAX: u32 = 10;

impl DenoiserParams {
    /// Every setting lies in the range that the panel offers for it.
    pub open spec fn within_panel(&self) -> bool {
        &&& self.block <= FIELD_MAX
        &&& 0 <= self.delta <= FIELD_MAX
        &&& 0 <= self.line_threshold <= FIELD_MAX
        &&& APERTURE_MIN <= self.aperture <= APERTURE_MAX
        &&& RULING_MIN <= self.hl_thickness <= RULING_MAX
        &&& RULING_MIN <= self.hl_step <= RULING_MAX
        &&& RULING_MIN <= self.vl_thickness <= RULING_MAX
        &&& RULING_MIN <= self.vl_step <= RULING_MAX
    }

    /// The settings at the start, for the picture file `path`.
    pub open spec fn initial(&self, path: Seq<char>) -> bool {
        &&& self.path@ == path
        &&& self.block == 8
        &&& self.delta == 10
        &&& self.erase_k == 3
        &&& self.dilate_k == 1
        &&& self.threshold == 1
        &&& self.line_threshold == 30
        &&& self.aperture == 3
        &&& self.l2_gradient
        &&& self.hl_thickness == 1
        &&& self.hl_step == 10
        &&& self.vl_thickness == 1
        &&& self.vl_step == 10
    }
}

impl Default for DenoiserParams {
    fn default() -> (params: Self)
        ensures
            params.initial(Seq::empty()),
    {
        DenoiserParams {
            path: String::new(),
            block: 8,
            delta: 10,
            erase_k: 3,
            dilate_k: 1,
            threshold: 1,
            line_threshold: 30,
            aperture: 3,
            l2_gradient: true,
            hl_thickness: 1,
            hl_step: 10,
            vl_thickness: 1,
            vl_step: 10,
        }
    }
}

impl Clone for DenoiserParams {
    fn clone(&self) -> (copy: Self)
        ensures
            copy == *self,
    {
        DenoiserParams {
            path: self.path.clone(),
            block: self.block,
            delta: self.delta,
            erase_k: self.erase_k,
            dilate_k: self.dilate_k,
            threshold: self.threshold,
            line_threshold: self.line_threshold,
            aperture: self.aperture,
            l2_gradient: self.l2_gradient,
            hl_thickness: self.hl_thickness,
            hl_step: self.hl_step,
            vl_thickness: self.vl_thickness,
            vl_step: self.vl_step,
        }
    }
}

} // verus!
