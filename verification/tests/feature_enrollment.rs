use goodix_info::enrollment_add::{
    Gf3258EnrollmentAddKind, Gf3258EnrollmentFeaturePoint, Gf3258PersistentSourceScalars,
    Gf3258RegistrationEngine,
};
use goodix_info::enrollment_graph::Gf3258EnrollmentSample;
use goodix_info::feature::{GF3258_PIXELS, Gf3258FeaturePointCore};
use goodix_info::feature::descriptor::{
    GF3258_DESCRIPTOR_CENTRAL_LEN, GF3258_DESCRIPTOR_LEN, Gf3258CompactDescriptor,
};
use goodix_info::feature::extraction::gf3258_extract_primary_features_from_c2d40_source;
use goodix_info::feature::matching::{
    gf3258_bf420_descriptor, gf3258_matcher_polarity_from_raw_response,
};
use goodix_info::feature::quality::gf3258_capture_quality;
use goodix_info::feature::validity::gf3258_enrollment_validity_from_c2d40_source;
use goodix_info::feature_enrollment::{
    GF3258_TEMPLATE_POINT_CAPACITY, Gf3258EnrollmentReadyFeature, Gf3258FeatureEnrollmentError,
    gf3258_add_extracted_feature, gf3258_b3970_partition_by,
    gf3258_enrollment_mode0_compact_descriptor, gf3258_new_enrollment_template,
    validate_point_count,
};
use goodix_info::registration::{
    GF3258_QUARTER_VALIDITY_CELLS, GF3258_REGISTRATION_PACKED_BYTES, GF3258_REGISTRATION_PIXELS,
    GF3258_REGISTRATION_WIDTH, Gf3258AffineQ8, Gf3258MapOps, Gf3258PointRegistration,
    Gf3258RegistrationMapScores, Gf3258RegistrationPoint, Gf3258TransformOps,
    gf3258_pack_quarter_validity,
};

/// A cell is foreground where its first pixel is not black.
fn cell_map(image: &[u8]) -> [u8; 160] {
    let mut packed = [0u8; 160];
    for y in 0..32 {
        for x in 0..40 {
            if image[(y * 2) * 80 + x * 2] != 0 {
                let cell = y * 40 + x;
                packed[cell / 8] |= 1 << (cell % 8);
            }
        }
    }
    packed
}

fn masked_cell_map(image: &[u8], _mask: &[u8]) -> [u8; 160] {
    cell_map(image)
}

type CellMap = fn(&[u8]) -> [u8; 160];

fn maps() -> Gf3258MapOps<CellMap, fn(&[u8], &[u8]) -> [u8; 160], CellMap> {
    Gf3258MapOps {
        primary: cell_map,
        secondary: masked_cell_map,
        low_threshold: cell_map,
    }
}

fn no_registration(
    _: &[Gf3258RegistrationPoint],
    _: &[Gf3258RegistrationPoint],
) -> Option<Gf3258PointRegistration> {
    None
}

fn no_score(
    _: &[Gf3258EnrollmentSample],
    _: usize,
    _: usize,
    _: Gf3258AffineQ8,
) -> Gf3258RegistrationMapScores {
    panic!("nothing was registered")
}

fn no_acceptance(_: usize, _: i32, _: i32) -> bool {
    false
}

fn same(t: Gf3258AffineQ8) -> Gf3258AffineQ8 {
    t
}

fn inner(_: Gf3258AffineQ8, inner: Gf3258AffineQ8) -> Gf3258AffineQ8 {
    inner
}

fn no_novelty(_: &[u8; 160], _: &[Gf3258AffineQ8]) -> i32 {
    0
}

type Engine = Gf3258RegistrationEngine<
    fn(&[Gf3258RegistrationPoint], &[Gf3258RegistrationPoint]) -> Option<Gf3258PointRegistration>,
    fn(&[Gf3258EnrollmentSample], usize, usize, Gf3258AffineQ8) -> Gf3258RegistrationMapScores,
    fn(usize, i32, i32) -> bool,
    fn(Gf3258AffineQ8) -> Gf3258AffineQ8,
    fn(Gf3258AffineQ8, Gf3258AffineQ8) -> Gf3258AffineQ8,
    fn(&[u8; 160], &[Gf3258AffineQ8]) -> i32,
>;

fn engine() -> Engine {
    Gf3258RegistrationEngine {
        register: no_registration,
        score: no_score,
        accepts: no_acceptance,
        transforms: Gf3258TransformOps {
            inverse: same,
            compose: inner,
            novelty: no_novelty,
        },
    }
}

fn compact_for(id: usize) -> Gf3258CompactDescriptor {
    Gf3258CompactDescriptor {
        norm_128: 0,
        clip_128: 0,

        normalized_128: [0u16; GF3258_DESCRIPTOR_LEN],

        hadamard_128_words: [
            1u32.rotate_left((id % 31) as u32),
            0x0101_0101u32.wrapping_mul((id + 1) as u32),
            0x8000_0000u32.rotate_right((id % 31) as u32),
            0x1111_1111u32 ^ id as u32,
        ],

        median_hash_128: 0xa5a5_0000u32 ^ id as u32,

        norm_32: 0,
        clip_32: 0,

        normalized_32: [0u16; GF3258_DESCRIPTOR_CENTRAL_LEN],

        hadamard_hash_32: 0,
        median_hash_32: 0,
    }
}

fn point(id: usize, x: u16, y: u16) -> Gf3258EnrollmentFeaturePoint {
    Gf3258EnrollmentFeaturePoint {
        core: Gf3258FeaturePointCore {
            x_q8: x << 8,
            y_q8: y << 8,
            orientation_q12: 0,
            ranking_score: -(id as i32) - 1,
        },

        compact: compact_for(id),
    }
}

fn six_points() -> Vec<Gf3258EnrollmentFeaturePoint> {
    vec![
        point(0, 10, 10),
        point(1, 20, 10),
        point(2, 30, 10),
        point(3, 10, 20),
        point(4, 20, 20),
        point(5, 30, 20),
    ]
}

fn enrollment_friendly_image() -> Vec<u8> {
    let mut image = vec![0u8; GF3258_PIXELS];

    for y in 4..7 {
        for x in 4..28 {
            image[(y * 2) * 80 + x * 2] = 255;
        }
    }

    image
}

#[test]
fn production_point_capacity_accepts_limit_and_rejects_overflow() {
    assert_eq!(validate_point_count(GF3258_TEMPLATE_POINT_CAPACITY), Ok(()));

    assert!(matches!(
        validate_point_count(GF3258_TEMPLATE_POINT_CAPACITY + 1),
        Err(Gf3258FeatureEnrollmentError::TooManyPoints {
            actual: 121,
            capacity: GF3258_TEMPLATE_POINT_CAPACITY,
        })
    ));
}

#[test]
fn quality_aware_bridge_rejects_uniform_capture() {
    let source = vec![255u8; GF3258_PIXELS];
    let extraction =
        gf3258_extract_primary_features_from_c2d40_source(&source).unwrap();
    let validity =
        gf3258_enrollment_validity_from_c2d40_source(&source).unwrap();

    let error = Gf3258EnrollmentReadyFeature::from_primary_extraction_for_enrollment(
        &extraction,
        &source,
        &validity,
        0,
        &maps(),
    )
    .unwrap_err();

    assert!(matches!(
        error,
        Gf3258FeatureEnrollmentError::CaptureQualityRejected { .. }
    ));
}

#[test]
fn polarity_is_strict_signed_negative() {
    assert_eq!(gf3258_matcher_polarity_from_raw_response(i32::MIN,), 1);

    assert_eq!(gf3258_matcher_polarity_from_raw_response(-1,), 1);

    assert_eq!(gf3258_matcher_polarity_from_raw_response(0,), 0);

    assert_eq!(gf3258_matcher_polarity_from_raw_response(1,), 0);

    assert_eq!(gf3258_matcher_polarity_from_raw_response(i32::MAX,), 0);
}

#[test]
fn b3970_partition_matches_vendor_swap_shape() {
    let mut values = vec![
        (0usize, 0u16),
        (1usize, 1u16),
        (2usize, 0u16),
        (3usize, 1u16),
        (4usize, 0u16),
    ];

    let boundary = gf3258_b3970_partition_by(&mut values, |value: &(usize, u16)| value.1);

    assert_eq!(boundary, 3);

    let ids: Vec<usize> = values.iter().map(|value| value.0).collect();

    assert_eq!(ids, vec![0, 4, 2, 3, 1]);
}

#[test]
fn b3970_edge_cases_are_exact() {
    let mut empty: Vec<u16> = Vec::new();

    assert_eq!(gf3258_b3970_partition_by(&mut empty, |value: &u16| *value,), 0);

    let mut zero = vec![0u16];

    assert_eq!(gf3258_b3970_partition_by(&mut zero, |value: &u16| *value,), 1);

    let mut one = vec![1u16];

    assert_eq!(gf3258_b3970_partition_by(&mut one, |value: &u16| *value,), 0);
}

#[test]
fn persistence_baseline_derives_scalar_108_instead_of_trusting_caller_default() {
    let source = vec![127u8; GF3258_PIXELS];
    let extraction =
        gf3258_extract_primary_features_from_c2d40_source(&source).unwrap();
    let validity =
        gf3258_enrollment_validity_from_c2d40_source(&source).unwrap();
    assert!(extraction.points.is_empty());

    let feature = Gf3258EnrollmentReadyFeature::from_primary_extraction_from_c2d40_source(
        &extraction,
        &source,
        &validity,
        Gf3258PersistentSourceScalars {
            scalar_108: 99,
            ..Gf3258PersistentSourceScalars::default()
        },
        0,
        &maps(),
    )
    .unwrap();

    assert_eq!(feature.diagnostics().scalar_108, 0);
    assert_eq!(feature.persistent_state().unwrap().scalar_108, 0);
}

#[test]
fn persistence_partition_order_is_separate_from_registration_order() {
    let registration_points = vec![point(0, 10, 10), point(1, 20, 20)];
    let persistent_points = vec![
        registration_points[1].clone(),
        registration_points[0].clone(),
    ];
    let feature = Gf3258EnrollmentReadyFeature {
        points: registration_points,
        persistent_points,
        primary_registration_map: [0; GF3258_REGISTRATION_PACKED_BYTES],
        secondary_registration_map: None,
        low_threshold_registration_map: [0; GF3258_REGISTRATION_PACKED_BYTES],
        quarter_validity_packed: [0; GF3258_QUARTER_VALIDITY_CELLS / 8],
        packed_validity: [0; GF3258_REGISTRATION_PACKED_BYTES],
        source_scalars: Gf3258PersistentSourceScalars {
            scalar_108: 1,
            ..Gf3258PersistentSourceScalars::default()
        },
        status: 0,
        persistence_complete: true,
    };

    let registration = feature.registration_points();
    assert_eq!(registration[0].x_q8, 10 << 8);
    assert_eq!(registration[1].x_q8, 20 << 8);

    let persisted = feature.persistent_state().unwrap();
    assert_eq!(persisted.scalar_108, 1);
    assert_eq!(persisted.points[0].core.x_q8, 20 << 8);
    assert_eq!(persisted.points[1].core.x_q8, 10 << 8);
}

#[test]
fn persistence_bridge_materializes_c2d40_quality_scalars() {
    let source = enrollment_friendly_image();
    let extraction =
        gf3258_extract_primary_features_from_c2d40_source(&source).unwrap();
    let validity =
        gf3258_enrollment_validity_from_c2d40_source(&source).unwrap();
    let quality = gf3258_capture_quality(&source).unwrap();

    let feature = Gf3258EnrollmentReadyFeature::from_primary_extraction_from_c2d40_source(
        &extraction,
        &source,
        &validity,
        Gf3258PersistentSourceScalars::default(),
        0,
        &maps(),
    )
    .unwrap();
    let persisted = feature.persistent_state().unwrap();

    assert_eq!(persisted.c2d40_param3, quality.quality);
    assert_eq!(persisted.c2d40_param4, quality.coverage);
}

#[test]
fn enrollment_mode0_projection_matches_bf420_descriptor_domain() {
    let compact = compact_for(7);
    let original = compact.feature_point_bytes_10_2f();
    let expected: [u8; 16] =
        gf3258_bf420_descriptor(original[..16].try_into().expect("descriptor prefix"));

    let projected = gf3258_enrollment_mode0_compact_descriptor(&compact);
    let projected_bytes = projected.feature_point_bytes_10_2f();

    assert_eq!(&projected_bytes[..16], &expected);
    assert_eq!(projected.median_hash_128, compact.median_hash_128);
    assert_eq!(projected.hadamard_hash_32, compact.hadamard_hash_32);
    assert_eq!(projected.median_hash_32, compact.median_hash_32);
}

#[test]
fn bridge_uses_exact_registration_descriptor_prefix() {
    let p = point(3, 17, 23);

    let expected = p.compact.feature_point_bytes_10_2f();

    let registration = p.registration_point();

    assert_eq!(registration.x_q8, 17 << 8);

    assert_eq!(registration.y_q8, 23 << 8);

    assert_eq!(&registration.descriptor_192[..], &expected[..24]);
}

#[test]
fn algorithm_outputs_build_primary_and_packed_validity() {
    let image = enrollment_friendly_image();

    let active = vec![1u8; GF3258_REGISTRATION_PIXELS];

    let feature = Gf3258EnrollmentReadyFeature::from_algorithm_outputs(
        six_points(),
        &image,
        &active,
        None,
        0,
        &maps(),
    )
    .unwrap();

    assert_eq!(
        feature
            .primary_registration_map
            .iter()
            .map(|byte| { byte.count_ones() },)
            .sum::<u32>(),
        72
    );

    assert!(
        feature
            .packed_validity
            .iter()
            .all(|&byte| { byte == 0xff },)
    );

    let diagnostics = feature.diagnostics();

    assert_eq!(diagnostics.point_count, 6);

    assert_eq!(diagnostics.primary_foreground_cells, 72);

    assert_eq!(diagnostics.valid_cells, GF3258_REGISTRATION_PIXELS);
}

#[test]
fn quarter_validity_expands_two_by_two_before_packing() {
    let image = vec![0u8; GF3258_PIXELS];

    let mut quarter = [0u8; GF3258_QUARTER_VALIDITY_CELLS];

    quarter[0] = 1;

    let feature = Gf3258EnrollmentReadyFeature::from_algorithm_outputs_with_quarter_validity(
        Vec::new(),
        &image,
        &quarter,
        None,
        0,
        &maps(),
    )
    .unwrap();

    assert_eq!(feature.packed_validity[0] & 0b0000_0011, 0b0000_0011);

    assert_eq!(
        feature.packed_validity[GF3258_REGISTRATION_WIDTH / 8] & 0b0000_0011,
        0b0000_0011
    );

    assert_eq!(feature.diagnostics().valid_cells, 4);
}

#[test]
fn nonbinary_active_validity_is_rejected_before_packing() {
    let image = vec![0u8; GF3258_PIXELS];

    let mut active = vec![1u8; GF3258_REGISTRATION_PIXELS];

    active[37] = 2;

    let error = Gf3258EnrollmentReadyFeature::from_algorithm_outputs(
        Vec::new(),
        &image,
        &active,
        None,
        0,
        &maps(),
    )
    .unwrap_err();

    assert_eq!(
        error,
        Gf3258FeatureEnrollmentError::NonBinaryActiveValidity {
            index: 37,
            value: 2,
        }
    );
}

#[test]
fn first_real_feature_enters_template_without_pair_registration() {
    let image = enrollment_friendly_image();

    let active = vec![1u8; GF3258_REGISTRATION_PIXELS];

    let feature = Gf3258EnrollmentReadyFeature::from_algorithm_outputs(
        six_points(),
        &image,
        &active,
        None,
        0,
        &maps(),
    )
    .unwrap();

    let mut template = gf3258_new_enrollment_template();

    let result = gf3258_add_extracted_feature(&mut template, feature, &engine()).unwrap();

    assert_eq!(result.enrollment.kind, Gf3258EnrollmentAddKind::FirstSample);

    assert_eq!(template.sample_count(), 1);

    assert_eq!(result.feature.point_count, 6);
}

#[test]
fn quarter_boundary_retains_exact_40_byte_persistence_blob() {
    let image = vec![0u8; GF3258_PIXELS];

    let mut quarter = [0u8; GF3258_QUARTER_VALIDITY_CELLS];

    quarter[0] = 1;
    quarter[19] = 1;
    quarter[20] = 1;

    let feature = Gf3258EnrollmentReadyFeature::from_algorithm_outputs_with_quarter_validity(
        Vec::new(),
        &image,
        &quarter,
        None,
        0,
        &maps(),
    )
    .unwrap();

    assert_eq!(
        feature.quarter_validity_packed,
        gf3258_pack_quarter_validity(&quarter,)
    );

    assert!(feature.persistent_state().is_ok());
}

#[test]
fn b3970_partition_moves_items_that_are_no_plain_values() {
    let mut names: Vec<String> = ["b", "aa", "c", "dd", "ee"]
        .iter()
        .map(|name| (*name).to_owned())
        .collect();
    let split = gf3258_b3970_partition_by(&mut names[..], |name: &String| (name.len() % 2) as u16);
    assert_eq!(split, 3);
    assert_eq!(names, ["ee", "aa", "dd", "c", "b"]);
}
