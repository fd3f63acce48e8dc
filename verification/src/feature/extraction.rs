//! Primary GF3258 feature extraction: prepares the gradient and the detector
//! image and composes the detector, orientation and descriptor stages.
use vstd::prelude::*;

use crate::feature::descriptor;
use crate::feature::descriptor::{
    Gf3258CompactDescriptor, Gf3258DescriptorError, Gf3258DescriptorResult,
    GF3258_DESCRIPTOR_PROFILE_SCALE_Q16,
};
use crate::feature::detector;
use crate::feature::detector::{Gf3258ScaleSpace, RefinedExtremum, RefinementOutcome};
use crate::feature::filter;
use crate::feature::orientation;
use crate::feature::orientation::{
    Gf3258GradientPlanes, Gf3258OrientationError, Gf3258OrientationResult,
};
use crate::feature::{
    FeatureError, Gf3258FeaturePointCore, GF3258_HEIGHT, GF3258_PIXELS, GF3258_WIDTH,
};
use crate::text;

verus! {

/// The three coefficients sum to one less than unity.
pub const GF3258_C2D40_MODE6_KERNEL: [i32; 3] = [21_845, 21_845, 21_845];

pub const GF3258_C2D40_INPUTS_REVISION: &'static str = "gf3258-c2d40-inputs-v1";

pub const GF3258_PRIMARY_EXTRACTION_REVISION: &'static str = "gf3258-primary-extraction-v7";

/// The detector image of a source: a 3x3 average, reduced to its high bytes.
pub open spec fn detector_source_spec(source: Seq<u8>) -> Seq<u8> {
    let wide = filter::separable_q16_spec(
        detector::widened_image(source),
        GF3258_C2D40_MODE6_KERNEL@,
    );
    Seq::new(GF3258_PIXELS as nat, |i: int| (wide[i] / 256) as u8)
}

/// Produces the detector image of an 80x64 source.
pub fn gf3258_c2d40_detector_source(source_u8: &[u8]) -> (result: Result<Vec<u8>, FeatureError>)
    ensures
        source_u8@.len() != GF3258_PIXELS ==> result == Err::<Vec<u8>, FeatureError>(
            FeatureError::UnexpectedPixelCount {
                expected: GF3258_PIXELS,
                actual: source_u8@.len() as usize,
            },
        ),
        source_u8@.len() == GF3258_PIXELS ==> result is Ok && result->Ok_0@ == detector_source_spec(
            source_u8@,
        ),
{
    if source_u8.len() != GF3258_PIXELS {
        return Err(
            FeatureError::UnexpectedPixelCount { expected: GF3258_PIXELS, actual: source_u8.len() },
        );
    }
    let wide: Vec<u16> = detector::widen_image(source_u8);
    let filtered: Vec<u16> = filter::separable_q16_reflect101(
        wide.as_slice(),
        GF3258_C2D40_MODE6_KERNEL.as_slice(),
    );
    let mut out: Vec<u8> = Vec::with_capacity(GF3258_PIXELS);
    for i in 0..GF3258_PIXELS
        invariant
            filtered@.len() == GF3258_PIXELS,
            filtered@ == filter::separable_q16_spec(
                detector::widened_image(source_u8@),
                GF3258_C2D40_MODE6_KERNEL@,
            ),
            out@.len() == i,
            forall|j: int| 0 <= j < i ==> out@[j] == detector_source_spec(source_u8@)[j],
    {
        out.push((filtered[i] / 256) as u8);
    }
    proof {
        assert(out@ =~= detector_source_spec(source_u8@));
    }
    Ok(out)
}

/// The two images that the extraction reads, made from one source.
#[derive(Debug, Clone, PartialEq, Eq)]
pub struct Gf3258PreparedC0910Inputs {
    pub gradient_source_u8: Vec<u8>,
    pub detector_source_u8: Vec<u8>,
}

pub fn gf3258_prepare_c0910_inputs_from_c2d40_source(source_u8: &[u8]) -> (result: Result<
    Gf3258PreparedC0910Inputs,
    FeatureError,
>)
    ensures
        source_u8@.len() != GF3258_PIXELS ==> result == Err::<
            Gf3258PreparedC0910Inputs,
            FeatureError,
        >(
            FeatureError::UnexpectedPixelCount {
                expected: GF3258_PIXELS,
                actual: source_u8@.len() as usize,
            },
        ),
        source_u8@.len() == GF3258_PIXELS ==> {
            &&& result is Ok
            &&& result->Ok_0.gradient_source_u8@ == orientation::gradient_source_spec(source_u8@)
            &&& result->Ok_0.detector_source_u8@ == detector_source_spec(source_u8@)
        },
{
    let gradient_source_u8: Vec<u8> = match orientation::gf3258_c7310_gradient_source(source_u8) {
        Ok(image) => image,
        Err(error) => {
            return Err(error);
        },
    };
    let detector_source_u8: Vec<u8> = match gf3258_c2d40_detector_source(source_u8) {
        Ok(image) => image,
        Err(error) => {
            return Err(error);
        },
    };
    Ok(Gf3258PreparedC0910Inputs { gradient_source_u8, detector_source_u8 })
}

/// The two images of an extraction, kept apart by role.
#[derive(Debug, Clone, Copy)]
pub struct Gf3258C0910Inputs<'a> {
    /// Source of the magnitude and angle planes.
    pub gradient_source_u8: &'a [u8],
    /// Source of the detector scale space.
    pub detector_source_u8: &'a [u8],
}

/// The source of the gradient image, and the detector image.
#[derive(Debug, Clone, Copy)]
pub struct Gf3258C2d40FeatureInputs<'a> {
    pub c7310_source_u8: &'a [u8],
    pub detector_source_u8: &'a [u8],
}

/// One extracted feature point.
#[derive(Debug, Clone, PartialEq, Eq)]
pub struct Gf3258ExtractedPrimaryPoint {
    pub candidate: RefinedExtremum,
    pub core: Gf3258FeaturePointCore,
    pub orientation: Gf3258OrientationResult,
    pub descriptor: Gf3258DescriptorResult,
}

impl Gf3258ExtractedPrimaryPoint {
    pub fn compact_descriptor(&self) -> (compact: &Gf3258CompactDescriptor)
        ensures
            *compact == self.descriptor.compact,
    {
        &self.descriptor.compact
    }
}

#[derive(Debug, Clone, Copy, PartialEq, Eq)]
pub struct Gf3258PrimaryExtractionDiagnostics {
    pub raw_extrema_count: usize,
    pub refined_accepted_count: usize,
    pub refinement_fallback_count: usize,
    pub primary_point_count: usize,
}

/// The feature points of one capture, with the intermediate results.
#[derive(Debug, Clone, PartialEq, Eq)]
pub struct Gf3258PrimaryFeatureExtraction {
    pub gradient_planes: Gf3258GradientPlanes,
    /// One outcome per raw extremum.
    pub refinement_outcomes: Vec<RefinementOutcome>,
    pub points: Vec<Gf3258ExtractedPrimaryPoint>,
}

/// Number of accepted outcomes among the first `n`.
pub open spec fn accepted_count(outcomes: Seq<RefinementOutcome>, n: nat) -> nat
    decreases n,
{
    if n == 0 {
        0
    } else {
        accepted_count(outcomes, (n - 1) as nat) + if outcomes[n - 1] is Accepted {
            1nat
        } else {
            0nat
        }
    }
}

impl Gf3258PrimaryFeatureExtraction {
    pub fn diagnostics(&self) -> (d: Gf3258PrimaryExtractionDiagnostics)
        ensures
            d.raw_extrema_count == self.refinement_outcomes@.len(),
            d.refined_accepted_count == accepted_count(
                self.refinement_outcomes@,
                self.refinement_outcomes@.len(),
            ),
            d.refined_accepted_count + d.refinement_fallback_count == d.raw_extrema_count,
            d.primary_point_count == self.points@.len(),
    {
        let mut refined_accepted_count: usize = 0;
        for i in 0..self.refinement_outcomes.len()
            invariant
                refined_accepted_count == accepted_count(self.refinement_outcomes@, i as nat),
                refined_accepted_count <= i,
        {
            match self.refinement_outcomes[i] {
                RefinementOutcome::Accepted(_) => {
                    refined_accepted_count = refined_accepted_count + 1;
                },
                RefinementOutcome::Fallback(_) => {},
            }
        }
        Gf3258PrimaryExtractionDiagnostics {
            raw_extrema_count: self.refinement_outcomes.len(),
            refined_accepted_count,
            refinement_fallback_count: self.refinement_outcomes.len() - refined_accepted_count,
            primary_point_count: self.points.len(),
        }
    }
}

#[derive(Debug, Clone, PartialEq, Eq)]
pub enum Gf3258PrimaryExtractionError {
    C7310Source(FeatureError),
    GradientSource(FeatureError),
    DetectorSource(FeatureError),
    InvalidDescriptorScale(i32),
    Orientation { point_index: usize, source: Gf3258OrientationError },
    Descriptor { point_index: usize, source: Gf3258DescriptorError },
}

/// The primary candidates of a detector image.
pub open spec fn candidates_of(detector_image: Seq<u8>) -> Seq<RefinedExtremum> {
    detector::primary_candidates_spec(detector::outcomes_spec(detector::pyramid(detector_image)))
}

/// `point` is the feature point of `candidate` on the planes of `gradient`.
pub open spec fn is_point_of(
    point: Gf3258ExtractedPrimaryPoint,
    candidate: RefinedExtremum,
    gradient: Seq<u8>,
    scale_q16: i32,
) -> bool {
    let magnitude = orientation::gradient_magnitudes(gradient);
    let angle = orientation::gradient_angles(gradient);
    &&& point.candidate == candidate
    &&& orientation::is_orientation_of(point.orientation, candidate, magnitude, angle)
    &&& point.core == Gf3258FeaturePointCore::of(candidate, point.orientation.orientation_q12)
    &&& descriptor::is_descriptor_of(
        point.descriptor,
        candidate,
        point.orientation.orientation_q12,
        scale_q16,
        magnitude,
        angle,
    )
}

/// The fields of an extraction for its two images and the descriptor scale.
pub open spec fn is_extraction_of(
    e: Gf3258PrimaryFeatureExtraction,
    gradient: Seq<u8>,
    detector_image: Seq<u8>,
    scale_q16: i32,
) -> bool {
    let candidates = candidates_of(detector_image);
    &&& e.gradient_planes.magnitude_map_i32@ == orientation::gradient_magnitudes(gradient)
    &&& e.gradient_planes.angle_map_u16@ == orientation::gradient_angles(gradient)
    &&& e.refinement_outcomes@ == detector::outcomes_spec(detector::pyramid(detector_image))
    &&& e.points@.len() == candidates.len()
    &&& forall|k: int|
        0 <= k < candidates.len() ==> is_point_of(
            #[trigger] e.points@[k],
            candidates[k],
            gradient,
            scale_q16,
        )
}

/// No candidate has a histogram that is flat around its peak.
pub open spec fn peaks_defined(gradient: Seq<u8>, detector_image: Seq<u8>) -> bool {
    let candidates = candidates_of(detector_image);
    forall|k: int|
        0 <= k < candidates.len() ==> orientation::orientation_peak_defined(
            #[trigger] candidates[k],
            orientation::gradient_magnitudes(gradient),
            orientation::gradient_angles(gradient),
        )
}

/// The descriptor window exists wherever a candidate needs it.
pub open spec fn descriptor_scale_defined(detector_image: Seq<u8>, scale_q16: i32) -> bool {
    candidates_of(detector_image).len() > 0 ==> descriptor::descriptor_radius(scale_q16) >= 0
}

/// Primary candidates are well refined.
pub proof fn lemma_candidate_well_refined(detector_image: Seq<u8>, k: int)
    requires
        0 <= k < candidates_of(detector_image).len(),
    ensures
        detector::well_refined(candidates_of(detector_image)[k]),
{
    let p = detector::pyramid(detector_image);
    let outcomes = detector::outcomes_spec(p);
    let j = detector::lemma_primary_is_accepted(outcomes, outcomes.len(), k);
    detector::lemma_outcome_well_refined(p, j);
}

/// A well-refined candidate has an orientation window with binned angles.
proof fn lemma_candidate_window(candidate: RefinedExtremum, gradient: Seq<u8>)
    requires
        detector::well_refined(candidate),
    ensures
        orientation::orientation_window_defined(candidate),
        orientation::window_angles_binned(candidate, orientation::gradient_angles(gradient)),
{
    let angle = orientation::gradient_angles(gradient);
    let w = orientation::candidate_window(candidate);
    let f = orientation::orientation_field(candidate, Seq::empty(), angle);
    assert forall|dx: int, dy: int|
        w.x_min_offset <= dx <= w.x_max_offset && w.y_min_offset <= dy
            <= w.y_max_offset implies (#[trigger] angle[f.pixel(dx, dy)] as i16)
        <= orientation::GF3258_BINNED_ANGLE_MAX_Q12 by {
        let i = f.pixel(dx, dy);
        assert(1 <= f.x + dx <= GF3258_WIDTH - 2);
        assert(1 <= f.y + dy <= GF3258_HEIGHT - 2);
        orientation::lemma_gradient_angles_are_binned(gradient, i);
    }
}

/// Extracts the feature points of the two images, unless a candidate has a
/// histogram that is flat around its peak.
fn extract_unless_flat(
    gradient_source_u8: &[u8],
    detector_source_u8: &[u8],
    descriptor_scale_q16: i32,
) -> (result: Option<Gf3258PrimaryFeatureExtraction>)
    requires
        gradient_source_u8@.len() == GF3258_PIXELS,
        detector_source_u8@.len() == GF3258_PIXELS,
        descriptor_scale_q16 > 0,
        descriptor_scale_defined(detector_source_u8@, descriptor_scale_q16),
    ensures
        result is Some == peaks_defined(gradient_source_u8@, detector_source_u8@),
        result is Some ==> is_extraction_of(
            result->Some_0,
            gradient_source_u8@,
            detector_source_u8@,
            descriptor_scale_q16,
        ),
{
    let ghost gradient = gradient_source_u8@;
    let ghost image = detector_source_u8@;
    let gradient_planes: Gf3258GradientPlanes = orientation::gf3258_gradient_planes(
        gradient_source_u8,
    ).unwrap();
    let scale_space: Gf3258ScaleSpace = Gf3258ScaleSpace::build(detector_source_u8).unwrap();
    let refinement_outcomes: Vec<RefinementOutcome> = scale_space.refinement_outcomes();
    proof {
        assert forall|j: int|
            0 <= j < refinement_outcomes@.len() && (#[trigger] refinement_outcomes@[j]) is
                Accepted implies detector::pixel_of(refinement_outcomes@[j]->Accepted_0)
            < GF3258_PIXELS by {
            detector::lemma_outcome_well_refined(detector::pyramid(image), j);
        }
    }
    let candidates: Vec<RefinedExtremum> = scale_space.primary_candidates(
        refinement_outcomes.as_slice(),
    );
    let mut points: Vec<Gf3258ExtractedPrimaryPoint> = Vec::with_capacity(candidates.len());
    for k in 0..candidates.len()
        invariant
            gradient == gradient_source_u8@,
            image == detector_source_u8@,
            descriptor_scale_q16 > 0,
            descriptor_scale_defined(image, descriptor_scale_q16),
            gradient_planes.magnitude_map_i32@ == orientation::gradient_magnitudes(gradient),
            gradient_planes.angle_map_u16@ == orientation::gradient_angles(gradient),
            candidates@ == candidates_of(image),
            points@.len() == k,
            forall|j: int|
                0 <= j < k ==> is_point_of(
                    #[trigger] points@[j],
                    candidates@[j],
                    gradient,
                    descriptor_scale_q16,
                ),
            forall|j: int|
                0 <= j < k ==> orientation::orientation_peak_defined(
                    #[trigger] candidates@[j],
                    orientation::gradient_magnitudes(gradient),
                    orientation::gradient_angles(gradient),
                ),
    {
        let candidate: RefinedExtremum = candidates[k];
        proof {
            lemma_candidate_well_refined(image, k as int);
            lemma_candidate_window(candidate, gradient);
        }
        let orientation: Gf3258OrientationResult = match orientation::gf3258_orientation_unless_flat(
            &candidate,
            gradient_planes.magnitude_map_i32.as_slice(),
            gradient_planes.angle_map_u16.as_slice(),
        ) {
            Some(orientation) => orientation,
            None => {
                assert(!orientation::orientation_peak_defined(
                    candidates_of(image)[k as int],
                    orientation::gradient_magnitudes(gradient),
                    orientation::gradient_angles(gradient),
                ));
                return None;
            },
        };
        let core: Gf3258FeaturePointCore = Gf3258FeaturePointCore::from_candidate(
            &candidate,
            &orientation,
        );
        let descriptor: Gf3258DescriptorResult = descriptor::gf3258_primary_descriptor(
            &candidate,
            orientation.orientation_q12,
            descriptor_scale_q16,
            gradient_planes.magnitude_map_i32.as_slice(),
            gradient_planes.angle_map_u16.as_slice(),
        ).unwrap();
        points.push(Gf3258ExtractedPrimaryPoint { candidate, core, orientation, descriptor });
    }
    Some(Gf3258PrimaryFeatureExtraction { gradient_planes, refinement_outcomes, points })
}

/// The error of an image with a wrong number of pixels.
pub open spec fn pixel_count_error(actual: nat) -> FeatureError {
    FeatureError::UnexpectedPixelCount { expected: GF3258_PIXELS, actual: actual as usize }
}

/// Extracts the feature points of the two images at a descriptor scale.
pub fn gf3258_extract_primary_features_with_descriptor_scale(
    inputs: Gf3258C0910Inputs<'_>,
    descriptor_scale_q16: i32,
) -> (result: Result<Gf3258PrimaryFeatureExtraction, Gf3258PrimaryExtractionError>)
    requires
        descriptor_scale_q16 > 0 && inputs.gradient_source_u8@.len() == GF3258_PIXELS
            && inputs.detector_source_u8@.len() == GF3258_PIXELS ==> descriptor_scale_defined(
            inputs.detector_source_u8@,
            descriptor_scale_q16,
        ) && peaks_defined(inputs.gradient_source_u8@, inputs.detector_source_u8@),
    ensures
        descriptor_scale_q16 <= 0 ==> result == Err::<
            Gf3258PrimaryFeatureExtraction,
            Gf3258PrimaryExtractionError,
        >(Gf3258PrimaryExtractionError::InvalidDescriptorScale(descriptor_scale_q16)),
        descriptor_scale_q16 > 0 && inputs.gradient_source_u8@.len() != GF3258_PIXELS ==> result
            == Err::<Gf3258PrimaryFeatureExtraction, Gf3258PrimaryExtractionError>(
            Gf3258PrimaryExtractionError::GradientSource(
                pixel_count_error(inputs.gradient_source_u8@.len()),
            ),
        ),
        descriptor_scale_q16 > 0 && inputs.gradient_source_u8@.len() == GF3258_PIXELS
            && inputs.detector_source_u8@.len() != GF3258_PIXELS ==> result == Err::<
            Gf3258PrimaryFeatureExtraction,
            Gf3258PrimaryExtractionError,
        >(
            Gf3258PrimaryExtractionError::DetectorSource(
                pixel_count_error(inputs.detector_source_u8@.len()),
            ),
        ),
        descriptor_scale_q16 > 0 && inputs.gradient_source_u8@.len() == GF3258_PIXELS
            && inputs.detector_source_u8@.len() == GF3258_PIXELS ==> result is Ok
            && is_extraction_of(
            result->Ok_0,
            inputs.gradient_source_u8@,
            inputs.detector_source_u8@,
            descriptor_scale_q16,
        ),
{
    if descriptor_scale_q16 <= 0 {
        return Err(
            Gf3258PrimaryExtractionError::InvalidDescriptorScale(descriptor_scale_q16),
        );
    }
    if inputs.gradient_source_u8.len() != GF3258_PIXELS {
        return Err(
            Gf3258PrimaryExtractionError::GradientSource(
                FeatureError::UnexpectedPixelCount {
                    expected: GF3258_PIXELS,
                    actual: inputs.gradient_source_u8.len(),
                },
            ),
        );
    }
    if inputs.detector_source_u8.len() != GF3258_PIXELS {
        return Err(
            Gf3258PrimaryExtractionError::DetectorSource(
                FeatureError::UnexpectedPixelCount {
                    expected: GF3258_PIXELS,
                    actual: inputs.detector_source_u8.len(),
                },
            ),
        );
    }
    Ok(
        extract_unless_flat(
            inputs.gradient_source_u8,
            inputs.detector_source_u8,
            descriptor_scale_q16,
        ).unwrap(),
    )
}

/// Extracts the feature points of the two images at the profile scale.
pub fn gf3258_extract_primary_features(inputs: Gf3258C0910Inputs<'_>) -> (result: Result<
    Gf3258PrimaryFeatureExtraction,
    Gf3258PrimaryExtractionError,
>)
    requires
        inputs.gradient_source_u8@.len() == GF3258_PIXELS && inputs.detector_source_u8@.len()
            == GF3258_PIXELS ==> peaks_defined(
            inputs.gradient_source_u8@,
            inputs.detector_source_u8@,
        ),
    ensures
        inputs.gradient_source_u8@.len() != GF3258_PIXELS ==> result == Err::<
            Gf3258PrimaryFeatureExtraction,
            Gf3258PrimaryExtractionError,
        >(
            Gf3258PrimaryExtractionError::GradientSource(
                pixel_count_error(inputs.gradient_source_u8@.len()),
            ),
        ),
        inputs.gradient_source_u8@.len() == GF3258_PIXELS && inputs.detector_source_u8@.len()
            != GF3258_PIXELS ==> result == Err::<
            Gf3258PrimaryFeatureExtraction,
            Gf3258PrimaryExtractionError,
        >(
            Gf3258PrimaryExtractionError::DetectorSource(
                pixel_count_error(inputs.detector_source_u8@.len()),
            ),
        ),
        inputs.gradient_source_u8@.len() == GF3258_PIXELS && inputs.detector_source_u8@.len()
            == GF3258_PIXELS ==> result is Ok && is_extraction_of(
            result->Ok_0,
            inputs.gradient_source_u8@,
            inputs.detector_source_u8@,
            GF3258_DESCRIPTOR_PROFILE_SCALE_Q16,
        ),
{
    gf3258_extract_primary_features_with_descriptor_scale(
        inputs,
        GF3258_DESCRIPTOR_PROFILE_SCALE_Q16,
    )
}

/// Extracts the feature points of a detector image and of the gradient image
/// made from its own source.
pub fn gf3258_extract_primary_features_from_c2d40(inputs: Gf3258C2d40FeatureInputs<'_>) -> (result:
    Result<Gf3258PrimaryFeatureExtraction, Gf3258PrimaryExtractionError>)
    requires
        inputs.c7310_source_u8@.len() == GF3258_PIXELS && inputs.detector_source_u8@.len()
            == GF3258_PIXELS ==> peaks_defined(
            orientation::gradient_source_spec(inputs.c7310_source_u8@),
            inputs.detector_source_u8@,
        ),
    ensures
        inputs.c7310_source_u8@.len() != GF3258_PIXELS ==> result == Err::<
            Gf3258PrimaryFeatureExtraction,
            Gf3258PrimaryExtractionError,
        >(
            Gf3258PrimaryExtractionError::C7310Source(
                pixel_count_error(inputs.c7310_source_u8@.len()),
            ),
        ),
        inputs.c7310_source_u8@.len() == GF3258_PIXELS && inputs.detector_source_u8@.len()
            != GF3258_PIXELS ==> result == Err::<
            Gf3258PrimaryFeatureExtraction,
            Gf3258PrimaryExtractionError,
        >(
            Gf3258PrimaryExtractionError::DetectorSource(
                pixel_count_error(inputs.detector_source_u8@.len()),
            ),
        ),
        inputs.c7310_source_u8@.len() == GF3258_PIXELS && inputs.detector_source_u8@.len()
            == GF3258_PIXELS ==> result is Ok && is_extraction_of(
            result->Ok_0,
            orientation::gradient_source_spec(inputs.c7310_source_u8@),
            inputs.detector_source_u8@,
            GF3258_DESCRIPTOR_PROFILE_SCALE_Q16,
        ),
{
    let gradient_source: Vec<u8> = match orientation::gf3258_c7310_gradient_source(
        inputs.c7310_source_u8,
    ) {
        Ok(image) => image,
        Err(error) => {
            return Err(Gf3258PrimaryExtractionError::C7310Source(error));
        },
    };
    gf3258_extract_primary_features(
        Gf3258C0910Inputs {
            gradient_source_u8: gradient_source.as_slice(),
            detector_source_u8: inputs.detector_source_u8,
        },
    )
}

/// `e` is the extraction of one source image at the profile scale.
pub open spec fn is_source_extraction_of(
    e: Gf3258PrimaryFeatureExtraction,
    source: Seq<u8>,
) -> bool {
    is_extraction_of(
        e,
        orientation::gradient_source_spec(source),
        detector_source_spec(source),
        GF3258_DESCRIPTOR_PROFILE_SCALE_Q16,
    )
}

/// No candidate of the source image has a flat histogram.
pub open spec fn source_peaks_defined(source: Seq<u8>) -> bool {
    peaks_defined(orientation::gradient_source_spec(source), detector_source_spec(source))
}

/// Extracts the feature points of one source image, unless a candidate has a
/// histogram that is flat around its peak.
pub fn gf3258_extract_unless_flat_from_c2d40_source(source_u8: &[u8]) -> (result: Result<
    Option<Gf3258PrimaryFeatureExtraction>,
    Gf3258PrimaryExtractionError,
>)
    ensures
        source_u8@.len() != GF3258_PIXELS ==> result == Err::<
            Option<Gf3258PrimaryFeatureExtraction>,
            Gf3258PrimaryExtractionError,
        >(Gf3258PrimaryExtractionError::C7310Source(pixel_count_error(source_u8@.len()))),
        source_u8@.len() == GF3258_PIXELS ==> {
            &&& result is Ok
            &&& result->Ok_0 is Some == source_peaks_defined(source_u8@)
            &&& result->Ok_0 is Some ==> is_source_extraction_of(
                result->Ok_0->Some_0,
                source_u8@,
            )
        },
{
    let gradient_source: Vec<u8> = match orientation::gf3258_c7310_gradient_source(source_u8) {
        Ok(image) => image,
        Err(error) => {
            return Err(Gf3258PrimaryExtractionError::C7310Source(error));
        },
    };
    let detector_source: Vec<u8> = match gf3258_c2d40_detector_source(source_u8) {
        Ok(image) => image,
        Err(error) => {
            return Err(Gf3258PrimaryExtractionError::DetectorSource(error));
        },
    };
    Ok(
        extract_unless_flat(
            gradient_source.as_slice(),
            detector_source.as_slice(),
            GF3258_DESCRIPTOR_PROFILE_SCALE_Q16,
        ),
    )
}

/// Extracts the feature points of one source image.
pub fn gf3258_extract_primary_features_from_c2d40_source(source_u8: &[u8]) -> (result: Result<
    Gf3258PrimaryFeatureExtraction,
    Gf3258PrimaryExtractionError,
>)
    requires
        source_u8@.len() == GF3258_PIXELS ==> source_peaks_defined(source_u8@),
    ensures
        source_u8@.len() != GF3258_PIXELS ==> result == Err::<
            Gf3258PrimaryFeatureExtraction,
            Gf3258PrimaryExtractionError,
        >(Gf3258PrimaryExtractionError::C7310Source(pixel_count_error(source_u8@.len()))),
        source_u8@.len() == GF3258_PIXELS ==> result is Ok && is_source_extraction_of(
            result->Ok_0,
            source_u8@,
        ),
{
    match gf3258_extract_unless_flat_from_c2d40_source(source_u8) {
        Ok(extraction) => Ok(extraction.unwrap()),
        Err(error) => Err(error),
    }
}

impl Gf3258PrimaryExtractionError {
    pub open spec fn message_spec(&self) -> Seq<char> {
        match self {
            Gf3258PrimaryExtractionError::C7310Source(error) => {
                "GF3258 c7310/local_2b8 source input: "@ + error.message_spec()
            },
            Gf3258PrimaryExtractionError::GradientSource(error) => {
                "GF3258 c0910 gradient-source input: "@ + error.message_spec()
            },
            Gf3258PrimaryExtractionError::DetectorSource(error) => {
                "GF3258 c0910 detector-source input: "@ + error.message_spec()
            },
            Gf3258PrimaryExtractionError::InvalidDescriptorScale(scale) => {
                "GF3258 c0910 descriptor/profile scale must be positive; got "@
                    + text::signed_decimal(*scale as int)
            },
            Gf3258PrimaryExtractionError::Orientation { point_index, source } => {
                "GF3258 c0910 primary point "@ + text::decimal(*point_index as nat)
                    + " orientation failed: "@ + source.message_spec()
            },
            Gf3258PrimaryExtractionError::Descriptor { point_index, source } => {
                "GF3258 c0910 primary point "@ + text::decimal(*point_index as nat)
                    + " descriptor failed: "@ + source.message_spec()
            },
        }
    }

    /// The message of this error.
    pub fn message(&self) -> (text: String)
        ensures
            text@ == self.message_spec(),
    {
        match self {
            Gf3258PrimaryExtractionError::C7310Source(error) => {
                let mut out: String = "GF3258 c7310/local_2b8 source input: ".to_owned();
                out.append(error.message().as_str());
                out
            },
            Gf3258PrimaryExtractionError::GradientSource(error) => {
                let mut out: String = "GF3258 c0910 gradient-source input: ".to_owned();
                out.append(error.message().as_str());
                out
            },
            Gf3258PrimaryExtractionError::DetectorSource(error) => {
                let mut out: String = "GF3258 c0910 detector-source input: ".to_owned();
                out.append(error.message().as_str());
                out
            },
            Gf3258PrimaryExtractionError::InvalidDescriptorScale(scale) => {
                let mut out: String =
                    "GF3258 c0910 descriptor/profile scale must be positive; got ".to_owned();
                text::push_signed(&mut out, *scale);
                out
            },
            Gf3258PrimaryExtractionError::Orientation { point_index, source } => {
                let mut out: String = "GF3258 c0910 primary point ".to_owned();
                text::push_decimal(&mut out, *point_index as u64);
                out.append(" orientation failed: ");
                out.append(source.message().as_str());
                out
            },
            Gf3258PrimaryExtractionError::Descriptor { point_index, source } => {
                let mut out: String = "GF3258 c0910 primary point ".to_owned();
                text::push_decimal(&mut out, *point_index as u64);
                out.append(" descriptor failed: ");
                out.append(source.message().as_str());
                out
            },
        }
    }
}

/// Two extractions with the same planes, refinements and points.
pub open spec fn same_extraction(
    a: Gf3258PrimaryFeatureExtraction,
    b: Gf3258PrimaryFeatureExtraction,
) -> bool {
    &&& a.gradient_planes.magnitude_map_i32@ == b.gradient_planes.magnitude_map_i32@
    &&& a.gradient_planes.angle_map_u16@ == b.gradient_planes.angle_map_u16@
    &&& a.refinement_outcomes@ == b.refinement_outcomes@
    &&& a.points@ == b.points@
}

/// A candidate has one feature point.
proof fn lemma_point_deterministic(
    a: Gf3258ExtractedPrimaryPoint,
    b: Gf3258ExtractedPrimaryPoint,
    candidate: RefinedExtremum,
    gradient: Seq<u8>,
    scale_q16: i32,
)
    requires
        is_point_of(a, candidate, gradient, scale_q16),
        is_point_of(b, candidate, gradient, scale_q16),
    ensures
        a == b,
{
    assert(a.orientation.raw_histogram =~= b.orientation.raw_histogram);
    assert(a.orientation.histogram =~= b.orientation.histogram);
    let c = a.descriptor;
    let d = b.descriptor;
    assert(c.padded_histogram =~= d.padded_histogram);
    assert(c.descriptor_128 =~= d.descriptor_128);
    assert(c.central_descriptor_32 =~= d.central_descriptor_32);
    assert(c.compact.normalized_128 =~= d.compact.normalized_128);
    assert(c.compact.normalized_32 =~= d.compact.normalized_32);
    assert(c.compact.hadamard_128_words =~= d.compact.hadamard_128_words);
}

/// Equal images have equal features: two extractions agree on their planes,
/// their refinements and every field of every point.
pub proof fn lemma_extraction_deterministic(
    a: Gf3258PrimaryFeatureExtraction,
    b: Gf3258PrimaryFeatureExtraction,
    gradient: Seq<u8>,
    detector_image: Seq<u8>,
    scale_q16: i32,
)
    requires
        is_extraction_of(a, gradient, detector_image, scale_q16),
        is_extraction_of(b, gradient, detector_image, scale_q16),
    ensures
        same_extraction(a, b),
{
    assert forall|k: int| 0 <= k < a.points@.len() implies a.points@[k] == b.points@[k] by {
        lemma_point_deterministic(
            a.points@[k],
            b.points@[k],
            candidates_of(detector_image)[k],
            gradient,
            scale_q16,
        );
    }
    assert(a.points@ =~= b.points@);
}

/// The three ways to extract from one source image agree: from the source
/// alone, from both images that are prepared from it, and from the source with
/// the prepared detector image.
pub proof fn lemma_entry_points_agree(
    source: Seq<u8>,
    prepared: Gf3258PreparedC0910Inputs,
    from_source: Gf3258PrimaryFeatureExtraction,
    from_prepared: Gf3258PrimaryFeatureExtraction,
    from_mixed: Gf3258PrimaryFeatureExtraction,
)
    requires
        prepared.gradient_source_u8@ == orientation::gradient_source_spec(source),
        prepared.detector_source_u8@ == detector_source_spec(source),
        is_source_extraction_of(from_source, source),
        is_extraction_of(
            from_prepared,
            prepared.gradient_source_u8@,
            prepared.detector_source_u8@,
            GF3258_DESCRIPTOR_PROFILE_SCALE_Q16,
        ),
        is_extraction_of(
            from_mixed,
            orientation::gradient_source_spec(source),
            prepared.detector_source_u8@,
            GF3258_DESCRIPTOR_PROFILE_SCALE_Q16,
        ),
    ensures
        same_extraction(from_source, from_prepared),
        same_extraction(from_source, from_mixed),
{
    let gradient = orientation::gradient_source_spec(source);
    let detector_image = detector_source_spec(source);
    lemma_extraction_deterministic(
        from_source,
        from_prepared,
        gradient,
        detector_image,
        GF3258_DESCRIPTOR_PROFILE_SCALE_Q16,
    );
    lemma_extraction_deterministic(
        from_source,
        from_mixed,
        gradient,
        detector_image,
        GF3258_DESCRIPTOR_PROFILE_SCALE_Q16,
    );
}

} // verus!
