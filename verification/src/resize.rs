//! What a resize is asked to do, and the size of the image that it makes.

use crate::size::Size;
use vstd::prelude::*;

verus! {

/// A request to resize an image.
#[derive(Debug, PartialEq, Eq, Clone)]
pub struct ResizeArgs {
    /// The image to extend.
    pub input_path: String,
    /// Where the extended image goes; it replaces the input image where this is absent.
    pub output_path: Option<String>,
    /// The scale of the image as it is, in units of the caller's choice.
    pub fit_scale: Size<u32>,
    /// The scale to extend the image to, in the units of `fit_scale`.
    pub output_scale: Size<u32>,
}

/// Why no target size can be given.
#[derive(Debug, PartialEq, Eq, Clone, Copy, Structural)]
pub enum ResizeError {
    /// The width or the height of the fit scale is zero.
    ZeroFitScale,
    /// The target width or height does not fit in 32 bits.
    TooLarge,
}

/// A dimension of `source` pixels at the scale `fit`, brought to the scale `output`: the
/// ratio of the scales is applied to it, and a fraction of a pixel is dropped.
pub open spec fn scaled(source: u32, output: u32, fit: u32) -> int {
    (source * output) / (fit as int)
}

/// Brings one dimension to the output scale. None where the result does not fit in 32 bits.
fn scale(source: u32, output: u32, fit: u32) -> (target: Option<u32>)
    requires
        fit != 0,
    ensures
        target is Some <==> scaled(source, output, fit) <= u32::MAX,
        target matches Some(dimension) ==> dimension == scaled(source, output, fit),
{
    assert(0 <= source * output <= 0xffff_ffff * 0xffff_ffff) by (nonlinear_arith)
        requires
            source <= 0xffff_ffff,
            output <= 0xffff_ffff,
    ;
    let target: u64 = (source as u64 * output as u64) / (fit as u64);
    if target <= u32::MAX as u64 {
        Some(target as u32)
    } else {
        None
    }
}

/// The size of the image that a resize makes of an image of the size `source`.
///
/// Each dimension is multiplied by the output scale and divided by the fit scale, and a
/// fraction of a pixel is dropped. A fit scale with a zero in it is turned down.
pub fn resolve_dimensions(source: Size<u32>, fit_scale: Size<u32>, output_scale: Size<u32>) -> (target:
    Result<Size<u32>, ResizeError>)
    ensures
        match target {
            Ok(size) => {
                &&& fit_scale.0 != 0 && fit_scale.1 != 0
                &&& size.0 == scaled(source.0, output_scale.0, fit_scale.0)
                &&& size.1 == scaled(source.1, output_scale.1, fit_scale.1)
            },
            Err(ResizeError::ZeroFitScale) => fit_scale.0 == 0 || fit_scale.1 == 0,
            Err(ResizeError::TooLarge) => {
                &&& fit_scale.0 != 0 && fit_scale.1 != 0
                &&& scaled(source.0, output_scale.0, fit_scale.0) > u32::MAX || scaled(
                    source.1,
                    output_scale.1,
                    fit_scale.1,
                ) > u32::MAX
            },
        },
{
    if fit_scale.0 == 0 || fit_scale.1 == 0 {
        return Err(ResizeError::ZeroFitScale);
    }
    let width = scale(source.0, output_scale.0, fit_scale.0);
    let height = scale(source.1, output_scale.1, fit_scale.1);
    match (width, height) {
        (Some(width), Some(height)) => Ok(Size(width, height)),
        _ => Err(ResizeError::TooLarge),
    }
}

impl ResizeArgs {
    /// The size of the image that this request makes of an image of the size `source`.
    pub fn target_size(&self, source: Size<u32>) -> (target: Result<Size<u32>, ResizeError>)
        ensures
            match target {
                Ok(size) => {
                    &&& self.fit_scale.0 != 0 && self.fit_scale.1 != 0
                    &&& size.0 == scaled(source.0, self.output_scale.0, self.fit_scale.0)
                    &&& size.1 == scaled(source.1, self.output_scale.1, self.fit_scale.1)
                },
                Err(ResizeError::ZeroFitScale) => self.fit_scale.0 == 0 || self.fit_scale.1 == 0,
                Err(ResizeError::TooLarge) => {
                    &&& self.fit_scale.0 != 0 && self.fit_scale.1 != 0
                    &&& scaled(source.0, self.output_scale.0, self.fit_scale.0) > u32::MAX
                        || scaled(source.1, self.output_scale.1, self.fit_scale.1) > u32::MAX
                },
            },
    {
        resolve_dimensions(source, self.fit_scale, self.output_scale)
    }

    /// Where the extended image goes: to the output path, or onto the input image where no
    /// output path is given.
    pub fn destination(&self) -> (path: &String)
        ensures
            path == match self.output_path {
                Some(output_path) => output_path,
                None => self.input_path,
            },
    {
        match &self.output_path {
            Some(output_path) => output_path,
            None => &self.input_path,
        }
    }
}

} // verus!
