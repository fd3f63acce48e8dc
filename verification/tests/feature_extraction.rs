use goodix_info::feature::{GF3258_PIXELS, Gf3258FeaturePointCore};
use goodix_info::feature::descriptor::{
    GF3258_DESCRIPTOR_PROFILE_SCALE_Q16, gf3258_primary_descriptor,
};
use goodix_info::feature::detector::Gf3258ScaleSpace;
use goodix_info::feature::extraction::{
    GF3258_C2D40_MODE6_KERNEL, Gf3258C0910Inputs, Gf3258C2d40FeatureInputs,
    Gf3258PrimaryExtractionError, gf3258_c2d40_detector_source, gf3258_extract_primary_features,
    gf3258_extract_primary_features_from_c2d40, gf3258_extract_primary_features_from_c2d40_source,
    gf3258_prepare_c0910_inputs_from_c2d40_source,
};
use goodix_info::feature::orientation::{
    gf3258_c7310_gradient_source, gf3258_gradient_planes, gf3258_primary_orientation,
};

#[test]
fn c2d40_mode6_record_is_exact() {
    assert_eq!(GF3258_C2D40_MODE6_KERNEL, [21_845, 21_845, 21_845]);
    assert_eq!(GF3258_C2D40_MODE6_KERNEL.iter().sum::<i32>(), 65_535);
}

#[test]
fn c2d40_mode6_preserves_vendor_two_pass_truncation() {
    let source = vec![127u8; GF3258_PIXELS];
    let detector = gf3258_c2d40_detector_source(&source).unwrap();

    // 127<<8 = 32512. Because the mode-6 coefficients sum to 65535,
    // each Q16 1-D pass truncates one unit: 32512 -> 32511 -> 32510.
    // The final high byte is therefore 126, not 127.
    assert!(detector.iter().all(|&value| value == 126));
}

#[test]
fn c2d40_single_source_prepares_both_c0910_roles() {
    let source = synthetic_c0910_image(0x55aa_1234);
    let prepared = gf3258_prepare_c0910_inputs_from_c2d40_source(&source).unwrap();

    assert_eq!(
        prepared.gradient_source_u8,
        gf3258_c7310_gradient_source(&source).unwrap()
    );
    assert_eq!(
        prepared.detector_source_u8,
        gf3258_c2d40_detector_source(&source).unwrap()
    );
}

fn synthetic_c0910_image(mut state: u32) -> Vec<u8> {
    let mut image = Vec::with_capacity(GF3258_PIXELS);
    for _ in 0..GF3258_PIXELS {
        state = state.wrapping_mul(1_664_525).wrapping_add(1_013_904_223);
        image.push((state >> 24) as u8);
    }
    image
}

#[test]
fn c2d40_single_source_extraction_matches_manual_preparation() {
    let source = synthetic_c0910_image(0xdec0_de01);

    let automatic = gf3258_extract_primary_features_from_c2d40_source(&source).unwrap();
    let prepared = gf3258_prepare_c0910_inputs_from_c2d40_source(&source).unwrap();
    let manual = gf3258_extract_primary_features(Gf3258C0910Inputs {
        gradient_source_u8: &prepared.gradient_source_u8,
        detector_source_u8: &prepared.detector_source_u8,
    })
    .unwrap();

    assert_eq!(automatic, manual);
}

#[test]
fn c2d40_extraction_api_matches_manual_c7310_then_c0910() {
    let c7310_source = synthetic_c0910_image(0x0bad_f00d);
    let detector_source = synthetic_c0910_image(0x1020_3040);

    let automatic = gf3258_extract_primary_features_from_c2d40(Gf3258C2d40FeatureInputs {
        c7310_source_u8: &c7310_source,
        detector_source_u8: &detector_source,
    })
    .unwrap();

    let gradient_source = gf3258_c7310_gradient_source(&c7310_source).unwrap();
    let manual = gf3258_extract_primary_features(Gf3258C0910Inputs {
        gradient_source_u8: &gradient_source,
        detector_source_u8: &detector_source,
    })
    .unwrap();

    assert_eq!(automatic, manual);
}

#[test]
fn primary_extraction_applies_c0910_final_point_quantization() {
    let gradient_source = synthetic_c0910_image(0x1357_9bdf);
    let detector_source = synthetic_c0910_image(0x2468_ace0);
    let result = gf3258_extract_primary_features(Gf3258C0910Inputs {
        gradient_source_u8: &gradient_source,
        detector_source_u8: &detector_source,
    })
    .unwrap();

    assert!(!result.points.is_empty());
    for point in &result.points {
        assert_eq!(point.core.x_q8 & 0x000f, 0);
        assert_eq!(point.core.y_q8 & 0x000f, 0);
        assert_eq!(point.core.orientation_q12 & 0x00ff, 0);
    }
}

#[test]
fn primary_extraction_keeps_c0910_image_roles_separate() {
    let gradient_source = vec![17u8; GF3258_PIXELS];
    let detector_source = vec![23u8; GF3258_PIXELS];
    let result = gf3258_extract_primary_features(Gf3258C0910Inputs {
        gradient_source_u8: &gradient_source,
        detector_source_u8: &detector_source,
    })
    .unwrap();

    let expected_planes = gf3258_gradient_planes(&gradient_source).unwrap();
    assert_eq!(result.gradient_planes, expected_planes);
    assert_eq!(
        result.diagnostics().primary_point_count,
        result.points.len()
    );
}

#[test]
fn primary_extraction_matches_manual_component_orchestration() {
    let gradient_source = synthetic_c0910_image(0x1357_9bdf);
    let detector_source = synthetic_c0910_image(0x2468_ace0);

    let result = gf3258_extract_primary_features(Gf3258C0910Inputs {
        gradient_source_u8: &gradient_source,
        detector_source_u8: &detector_source,
    })
    .unwrap();

    let planes = gf3258_gradient_planes(&gradient_source).unwrap();
    assert_eq!(result.gradient_planes, planes);

    let scale_space = Gf3258ScaleSpace::build(&detector_source).unwrap();
    let outcomes = scale_space.refinement_outcomes();
    let candidates = scale_space.primary_candidates(&outcomes);

    assert_eq!(result.refinement_outcomes, outcomes);
    assert_eq!(result.points.len(), candidates.len());

    for (index, candidate) in candidates.iter().enumerate() {
        let orientation = gf3258_primary_orientation(
            candidate,
            &planes.magnitude_map_i32,
            &planes.angle_map_u16,
        )
        .unwrap();
        let core = Gf3258FeaturePointCore::from_candidate(candidate, &orientation);
        let descriptor = gf3258_primary_descriptor(
            candidate,
            orientation.orientation_q12,
            GF3258_DESCRIPTOR_PROFILE_SCALE_Q16,
            &planes.magnitude_map_i32,
            &planes.angle_map_u16,
        )
        .unwrap();

        assert_eq!(result.points[index].candidate, *candidate);
        assert_eq!(result.points[index].orientation, orientation);
        assert_eq!(result.points[index].core, core);
        assert_eq!(result.points[index].descriptor, descriptor);
    }

    let diagnostics = result.diagnostics();
    assert_eq!(diagnostics.raw_extrema_count, outcomes.len());
    assert_eq!(
        diagnostics.refined_accepted_count + diagnostics.refinement_fallback_count,
        diagnostics.raw_extrema_count
    );
    assert_eq!(diagnostics.primary_point_count, candidates.len());
}

#[test]
fn primary_extraction_rejects_bad_source_lengths_by_role() {
    let good = vec![0u8; GF3258_PIXELS];
    let short = vec![0u8; GF3258_PIXELS - 1];

    assert!(matches!(
        gf3258_extract_primary_features(Gf3258C0910Inputs {
            gradient_source_u8: &short,
            detector_source_u8: &good,
        }),
        Err(Gf3258PrimaryExtractionError::GradientSource(_))
    ));

    assert!(matches!(
        gf3258_extract_primary_features(Gf3258C0910Inputs {
            gradient_source_u8: &good,
            detector_source_u8: &short,
        }),
        Err(Gf3258PrimaryExtractionError::DetectorSource(_))
    ));
}
