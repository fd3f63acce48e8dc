//! GF3258 feature extraction: filtering, detection, orientation, description,
//! point support, validity, quality and matching.
use vstd::prelude::*;

use crate::text;

pub mod descriptor;
pub mod descriptor_laws;
pub mod detector;
pub mod extraction;
pub mod filter;
pub mod image_laws;
pub mod matching;
pub mod orientation;
pub mod orientation_laws;
pub mod quality;
pub mod support;
pub mod validity;
pub mod validity_laws;

verus! {

pub const GF3258_WIDTH: usize = 80;

pub const GF3258_HEIGHT: usize = 64;

pub const GF3258_PIXELS: usize = GF3258_WIDTH * GF3258_HEIGHT;

#[derive(Debug, Clone, PartialEq, Eq)]
pub enum FeatureError {
    UnexpectedPixelCount { expected: usize, actual: usize },
}

/// Geometry, orientation and ranking score of a stored feature point.
#[derive(Debug, Clone, Copy, PartialEq, Eq)]
pub struct Gf3258FeaturePointCore {
    pub x_q8: u16,
    pub y_q8: u16,
    pub orientation_q12: u16,
    pub ranking_score: i32,
}

/// A Q8 coordinate rounded to sixteenths of a pixel.
pub open spec fn rounded_coordinate(value: u16) -> u16 {
    ((value.wrapping_add(8) as int / 16) * 16) as u16
}

/// A Q12 orientation, read as signed, rounded to a sixteenth of a radian;
/// halves round away from zero.
pub open spec fn rounded_orientation(value: u16) -> u16 {
    let signed = (value as i16) as int;
    if signed < 0 {
        0i16.wrapping_sub((((-signed + 0x80) / 256 * 256) as i32) as i16) as u16
    } else {
        ((value.wrapping_add(0x80) as int / 256) * 256) as u16
    }
}

pub fn gf3258_c0910_round_coordinate_q8(value: u16) -> (r: u16)
    ensures
        r == rounded_coordinate(value),
{
    (value.wrapping_add(8) / 16) * 16
}

pub fn gf3258_c0910_round_orientation_q12(value: u16) -> (r: u16)
    ensures
        r == rounded_orientation(value),
{
    let signed: i16 = value as i16;
    if signed < 0 {
        let magnitude: i32 = -(signed as i32);
        let rounded: i32 = (magnitude + 0x80) / 256 * 256;
        0i16.wrapping_sub(rounded as i16) as u16
    } else {
        (value.wrapping_add(0x80) / 256) * 256
    }
}

impl Gf3258FeaturePointCore {
    /// The stored point of a candidate with orientation `orientation_q12`.
    pub open spec fn of(candidate: detector::RefinedExtremum, orientation_q12: u16) -> Self {
        Gf3258FeaturePointCore {
            x_q8: rounded_coordinate(candidate.x_q8),
            y_q8: rounded_coordinate(candidate.y_q8),
            orientation_q12: rounded_orientation(orientation_q12),
            ranking_score: 0i32.wrapping_sub(candidate.response),
        }
    }

    pub fn from_candidate(
        candidate: &detector::RefinedExtremum,
        orientation: &orientation::Gf3258OrientationResult,
    ) -> (core: Self)
        ensures
            core == Gf3258FeaturePointCore::of(*candidate, orientation.orientation_q12),
    {
        Gf3258FeaturePointCore {
            x_q8: gf3258_c0910_round_coordinate_q8(candidate.x_q8),
            y_q8: gf3258_c0910_round_coordinate_q8(candidate.y_q8),
            orientation_q12: gf3258_c0910_round_orientation_q12(orientation.orientation_q12),
            ranking_score: 0i32.wrapping_sub(candidate.response),
        }
    }
}

/// Stored coordinates are whole sixteenths of a pixel, and the low byte of a
/// stored orientation is zero.
pub proof fn lemma_point_core_quantized(candidate: detector::RefinedExtremum, orientation_q12: u16)
    ensures
        ({
            let core = Gf3258FeaturePointCore::of(candidate, orientation_q12);
            &&& core.x_q8 % 16 == 0
            &&& core.y_q8 % 16 == 0
            &&& core.orientation_q12 % 256 == 0
        }),
{
    let signed = (orientation_q12 as i16) as int;
    if signed < 0 {
        let m = ((-signed + 0x80) / 256 * 256) as i32;
        assert(m % 256 == 0);
        let t = m as i16;
        assert(m % 256 == 0 ==> (m as i16) % 256 == 0) by (bit_vector);
        let n = 0i16.wrapping_sub(t);
        assert(n as int % 256 == 0);
        assert(n % 256 == 0 ==> (n as u16) % 256 == 0) by (bit_vector);
    }
}

impl FeatureError {
    pub open spec fn message_spec(&self) -> Seq<char> {
        match self {
            FeatureError::UnexpectedPixelCount { expected, actual } => {
                "GF3258 algorithm image has "@ + text::decimal(*actual as nat)
                    + " pixels; expected "@ + text::decimal(*expected as nat) + " (80x64)"@
            },
        }
    }

    /// The message of this error.
    pub fn message(&self) -> (text: String)
        ensures
            text@ == self.message_spec(),
    {
        match self {
            FeatureError::UnexpectedPixelCount { expected, actual } => {
                let mut out: String = "GF3258 algorithm image has ".to_owned();
                text::push_decimal(&mut out, *actual as u64);
                out.append(" pixels; expected ");
                text::push_decimal(&mut out, *expected as u64);
                out.append(" (80x64)");
                out
            },
        }
    }
}

} // verus!
