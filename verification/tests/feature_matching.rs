use goodix_info::feature::matching::{
    GF3258_MATCH_SCORE_MATRIX_STRIDE, Gf3258CandidateMatcherConfig,
    Gf3258EnrolledCandidateFeatureSet, Gf3258EnrolledCandidatePoint, Gf3258MatchDescriptorMode,
    Gf3258MatcherEdgeClass, Gf3258MatcherFeatureSet, Gf3258MatcherPoint,
    Gf3258RecoveryEnrolledPoint, gf3258_bf420_descriptor,
    gf3258_generate_enrolled_match_candidates, gf3258_generate_match_candidates,
    gf3258_generate_recovery_pair_slots_from_score_matrix, gf3258_hamming64_bytes,
    gf3258_matcher_edge_class, gf3258_matcher_polarity_from_raw_response,
    gf3258_partition_matcher_points, gf3258_point_pair_score, gf3258_point_pair_score_core,
};

#[test]
fn polarity_uses_strict_signed_negative_response() {
    assert_eq!(gf3258_matcher_polarity_from_raw_response(-1), 1);
    assert_eq!(gf3258_matcher_polarity_from_raw_response(0), 0);
    assert_eq!(gf3258_matcher_polarity_from_raw_response(1), 0);
}

#[test]
fn verification_edge_class_matches_decode_finger_template_bands() {
    assert_eq!(gf3258_matcher_edge_class(0), Gf3258MatcherEdgeClass::Top);
    assert_eq!(
        gf3258_matcher_edge_class((20 << 8) - 1),
        Gf3258MatcherEdgeClass::Top
    );
    assert_eq!(
        gf3258_matcher_edge_class(20 << 8),
        Gf3258MatcherEdgeClass::Interior
    );
    assert_eq!(
        gf3258_matcher_edge_class((44 << 8) - 1),
        Gf3258MatcherEdgeClass::Interior
    );
    assert_eq!(
        gf3258_matcher_edge_class(44 << 8),
        Gf3258MatcherEdgeClass::Bottom
    );
    assert_eq!(
        gf3258_matcher_edge_class((64 << 8) - 1),
        Gf3258MatcherEdgeClass::Bottom
    );
}

#[test]
fn bf420_descriptor_permutation_matches_recovered_pair_layout() {
    let descriptor = [0, 1, 2, 3, 4, 5, 6, 7, 8, 9, 10, 11, 12, 13, 14, 15];
    assert_eq!(
        gf3258_bf420_descriptor(descriptor),
        [0, 3, 5, 6, 9, 10, 12, 15, 1, 2, 4, 7, 8, 11, 13, 14]
    );
}

#[test]
fn polarity_partition_preserves_vendor_unstable_order() {
    let mut points = [
        matcher_test_point_with_polarity(1, 1),
        matcher_test_point_with_polarity(2, 0),
        matcher_test_point_with_polarity(3, 1),
        matcher_test_point_with_polarity(4, 0),
    ];

    let split = gf3258_partition_matcher_points(&mut points);
    assert_eq!(split, 2);
    assert_eq!(
        points
            .iter()
            .map(|point| point.polarity)
            .collect::<Vec<_>>(),
        vec![0, 0, 1, 1]
    );
    assert_eq!(
        points.iter().map(|point| point.x_q8).collect::<Vec<_>>(),
        vec![4, 2, 3, 1]
    );
}

fn matcher_test_point_with_polarity(id: u16, polarity: u16) -> Gf3258MatcherPoint {
    Gf3258MatcherPoint {
        polarity,
        x_q8: id,
        y_q8: 0,
        orientation_q12: 0,
        descriptor_10_1f: [0; 16],
        hash20: 0,
        hash24: 0,
        hash28: 0,
        hash30: 0,
    }
}

#[test]
fn hamming64_is_exact_xor_popcount() {
    let a = [0x00u8; 8];
    let b = [0xffu8; 8];
    assert_eq!(gf3258_hamming64_bytes(&a, &b), 64);

    let c = [0x55u8; 8];
    let d = [0xaau8; 8];
    assert_eq!(gf3258_hamming64_bytes(&c, &d), 64);

    assert_eq!(gf3258_hamming64_bytes(&c, &c), 0);
}

fn matcher_test_point(
    x_q8: u16,
    y_q8: u16,
    descriptor_10_1f: [u8; 16],
    hash20: u32,
    hash24: u32,
    hash28: u32,
    hash30: u32,
) -> Gf3258MatcherPoint {
    Gf3258MatcherPoint {
        polarity: 0,
        x_q8,
        y_q8,
        orientation_q12: 0,
        descriptor_10_1f,
        hash20,
        hash24,
        hash28,
        hash30,
    }
}

#[test]
fn normal_and_alternate_pair_scores_are_exact() {
    let enrolled = matcher_test_point(0, 0, [0u8; 16], 0, 0, 0, 0);

    let mut live_desc = [0u8; 16];
    live_desc[8..].fill(0xff);
    let live = matcher_test_point(0, 0, live_desc, 0xffff_ffff, 0, 0xffff_ffff, 0);

    let cfg = Gf3258CandidateMatcherConfig {
        first_half_hamming_max: 64,
        descriptor_mode_hamming_max: 128,
        ambiguity_best_multiplier: 1,
        ambiguity_second_multiplier: 1,
    };

    let score = gf3258_point_pair_score(&enrolled, &live, cfg).unwrap();
    assert_eq!(score.first_half_hamming, 0);
    assert_eq!(score.second_half_hamming, 64);
    assert_eq!(score.normal_descriptor_hamming, 64);
    assert_eq!(score.alternate_descriptor_hamming, 0);
    assert_eq!(score.normal_hash_hamming, Some(64));
    assert_eq!(score.alternate_hash_hamming, Some(0));
    assert_eq!(score.normal_total, 128);
    assert_eq!(score.alternate_total, 0);
    assert_eq!(score.selected_total, 0);
    assert_eq!(score.selected_mode, Gf3258MatchDescriptorMode::Alternate);
}

#[test]
fn candidate_search_retains_two_strictly_best_live_points() {
    let enrolled = [matcher_test_point(0, 0, [0; 16], 0, 0, 0, 0)];
    let mut d1 = [0u8; 16];
    d1[0] = 0x01;
    let mut d2 = [0u8; 16];
    d2[0] = 0x03;

    let live = [
        matcher_test_point(0x0000, 0, [0; 16], 0, 0, 0, 0),
        matcher_test_point(0x0200, 0, d1, 0, 0, 0, 0),
        matcher_test_point(0x0400, 0, d2, 0, 0, 0, 0),
    ];

    let cfg = Gf3258CandidateMatcherConfig {
        first_half_hamming_max: 64,
        descriptor_mode_hamming_max: 128,
        ambiguity_best_multiplier: 1,
        ambiguity_second_multiplier: 2,
    };

    let result = gf3258_generate_match_candidates(
        Gf3258MatcherFeatureSet {
            points: &enrolled,
            polarity_split: 1,
        },
        Gf3258MatcherFeatureSet {
            points: &live,
            polarity_split: 3,
        },
        cfg,
    )
    .unwrap();

    assert_eq!(result.best_live_indices[0], [0, 1]);
    assert_eq!(result.best_scores[0][0], 0);
    assert!(result.best_scores[0][1] > 0);
}

#[test]
fn selected_correspondences_deduplicate_live_points_within_one_pixel() {
    let enrolled = [
        matcher_test_point(0, 0, [0; 16], 0, 0, 0, 0),
        matcher_test_point(0, 0, [0; 16], 0, 0, 0, 0),
    ];
    let mut second_desc = [0u8; 16];
    second_desc[0] = 0x01;
    let live = [
        matcher_test_point(0x1000, 0x1000, [0; 16], 0, 0, 0, 0),
        // 0.5 px away in x: squared Q8 distance is 0x4000 <= 0xffff.
        // Its one-bit descriptor penalty also gives the ratio test a
        // nonzero second-best score.
        matcher_test_point(0x1080, 0x1000, second_desc, 0, 0, 0, 0),
    ];

    let cfg = Gf3258CandidateMatcherConfig {
        first_half_hamming_max: 64,
        descriptor_mode_hamming_max: 128,
        ambiguity_best_multiplier: 1,
        ambiguity_second_multiplier: 2,
    };

    let result = gf3258_generate_match_candidates(
        Gf3258MatcherFeatureSet {
            points: &enrolled,
            polarity_split: 2,
        },
        Gf3258MatcherFeatureSet {
            points: &live,
            polarity_split: 2,
        },
        cfg,
    )
    .unwrap();

    // Both enrolled points nominate the same zero-score live point. ae220
    // keeps only one correspondence at that location.
    assert_eq!(result.selected.len(), 1);
    assert_eq!(result.pair_slots[0][1], 0);
    assert_eq!(result.pair_slots[1], [-1, -1]);
}

#[test]
fn persisted_enrolled_pair_projection_matches_full_point_score() {
    let enrolled = matcher_test_point(
        0x1234,
        0x5678,
        [0x5a; 16],
        0x1122_3344,
        0xaabb_ccdd,
        0x5566_7788,
        0xdead_beef,
    );
    let live = matcher_test_point(
        0x0100,
        0x0200,
        [0xa5; 16],
        0x0102_0304,
        0x1020_3040,
        0x5060_7080,
        0x90a0_b0c0,
    );
    let config = Gf3258CandidateMatcherConfig {
        first_half_hamming_max: 64,
        descriptor_mode_hamming_max: 128,
        ambiguity_best_multiplier: 40,
        ambiguity_second_multiplier: 38,
    };

    let persisted_projection = Gf3258EnrolledCandidatePoint::from(&enrolled);
    assert_eq!(
        gf3258_point_pair_score_core(&persisted_projection, &live, config),
        gf3258_point_pair_score(&enrolled, &live, config)
    );
}

#[test]
fn persisted_enrolled_candidate_generation_matches_full_feature_generation() {
    let enrolled = [
        matcher_test_point(0x1111, 0x2222, [0; 16], 0, 0x1111_1111, 0, 0x2222_2222),
        matcher_test_point(0x3333, 0x4444, [0x55; 16], 0xaaaa_aaaa, 0, 0x5555_5555, 0),
    ];
    let persisted = enrolled
        .iter()
        .map(Gf3258EnrolledCandidatePoint::from)
        .collect::<Vec<_>>();
    let mut d1 = [0u8; 16];
    d1[0] = 1;
    let live = [
        matcher_test_point(0x1000, 0x1000, [0; 16], 0, 0, 0, 0),
        matcher_test_point(0x3000, 0x3000, d1, 0, 0, 0, 0),
        matcher_test_point(0x5000, 0x5000, [0x55; 16], 0xaaaa_aaaa, 0, 0x5555_5555, 0),
    ];
    let config = Gf3258CandidateMatcherConfig {
        first_half_hamming_max: 64,
        descriptor_mode_hamming_max: 128,
        ambiguity_best_multiplier: 1,
        ambiguity_second_multiplier: 2,
    };

    let full = gf3258_generate_match_candidates(
        Gf3258MatcherFeatureSet {
            points: &enrolled,
            polarity_split: 1,
        },
        Gf3258MatcherFeatureSet {
            points: &live,
            polarity_split: 2,
        },
        config,
    )
    .unwrap();
    let reloaded = gf3258_generate_enrolled_match_candidates(
        Gf3258EnrolledCandidateFeatureSet {
            points: &persisted,
            polarity_split: 1,
        },
        Gf3258MatcherFeatureSet {
            points: &live,
            polarity_split: 2,
        },
        config,
    )
    .unwrap();

    assert_eq!(reloaded, full);
}

#[test]
fn recovery_inverse_selector_uses_best_enrolled_point_per_live_point() {
    let enrolled = [
        Gf3258RecoveryEnrolledPoint {
            x_q8: 0x1000,
            y_q8: 0x1000,
        },
        Gf3258RecoveryEnrolledPoint {
            x_q8: 0x3000,
            y_q8: 0x1000,
        },
        Gf3258RecoveryEnrolledPoint {
            x_q8: 0x5000,
            y_q8: 0x1000,
        },
    ];
    let live = [
        matcher_test_point(0x0800, 0x0800, [0; 16], 0, 0, 0, 0),
        matcher_test_point(0x1800, 0x0800, [0; 16], 0, 0, 0, 0),
    ];
    let mut matrix = vec![0xff; enrolled.len() * GF3258_MATCH_SCORE_MATRIX_STRIDE];
    matrix[0] = 10;
    matrix[GF3258_MATCH_SCORE_MATRIX_STRIDE] = 20;
    matrix[2 * GF3258_MATCH_SCORE_MATRIX_STRIDE] = 30;
    matrix[1] = 40;
    matrix[GF3258_MATCH_SCORE_MATRIX_STRIDE + 1] = 5;
    matrix[2 * GF3258_MATCH_SCORE_MATRIX_STRIDE + 1] = 50;
    let config = Gf3258CandidateMatcherConfig {
        first_half_hamming_max: 0,
        descriptor_mode_hamming_max: 0,
        ambiguity_best_multiplier: 1,
        ambiguity_second_multiplier: 2,
    };

    let slots = gf3258_generate_recovery_pair_slots_from_score_matrix(
        &enrolled,
        3,
        Gf3258MatcherFeatureSet {
            points: &live,
            polarity_split: 2,
        },
        config,
        &matrix,
    )
    .unwrap();

    assert_eq!(slots[0], [0, 0]);
    assert_eq!(slots[1], [1, 1]);
    assert_eq!(slots[2], [-1, -1]);
}

#[test]
fn recovery_inverse_selector_deduplicates_in_enrolled_geometry_domain() {
    let enrolled = [
        Gf3258RecoveryEnrolledPoint {
            x_q8: 0x1000,
            y_q8: 0x1000,
        },
        // Within ae220's <= 0xffff collision radius of point 0.
        Gf3258RecoveryEnrolledPoint {
            x_q8: 0x1080,
            y_q8: 0x1000,
        },
    ];
    let live = [
        matcher_test_point(0x0800, 0x0800, [0; 16], 0, 0, 0, 0),
        matcher_test_point(0x7000, 0x7000, [0; 16], 0, 0, 0, 0),
    ];
    let mut matrix = vec![0xff; enrolled.len() * GF3258_MATCH_SCORE_MATRIX_STRIDE];
    matrix[0] = 20;
    matrix[GF3258_MATCH_SCORE_MATRIX_STRIDE] = 50;
    matrix[1] = 40;
    matrix[GF3258_MATCH_SCORE_MATRIX_STRIDE + 1] = 10;
    let config = Gf3258CandidateMatcherConfig {
        first_half_hamming_max: 0,
        descriptor_mode_hamming_max: 0,
        ambiguity_best_multiplier: 1,
        ambiguity_second_multiplier: 2,
    };

    let slots = gf3258_generate_recovery_pair_slots_from_score_matrix(
        &enrolled,
        2,
        Gf3258MatcherFeatureSet {
            points: &live,
            polarity_split: 2,
        },
        config,
        &matrix,
    )
    .unwrap();

    // The second candidate has the lower score, so ae220 replaces the
    // colliding first candidate even though the LIVE points are far apart.
    assert_eq!(slots[0], [1, 1]);
    assert_eq!(slots[1], [-1, -1]);
}

#[test]
fn a_row_keeps_its_two_smallest_scores_and_their_first_indices() {
    let enrolled = [matcher_test_point(0, 0, [0; 16], 0, 0, 0, 0)];
    let descriptor = |bits: u8| {
        let mut descriptor = [0u8; 16];
        descriptor[0] = bits;
        descriptor
    };
    let live: Vec<Gf3258MatcherPoint> = [0x0f, 0x03, 0xff, 0x05, 0x07]
        .iter()
        .enumerate()
        .map(|(at, bits)| matcher_test_point(at as u16 * 0x200, 0, descriptor(*bits), 0, 0, 0, 0))
        .collect();
    let cfg = Gf3258CandidateMatcherConfig {
        first_half_hamming_max: 4,
        descriptor_mode_hamming_max: 128,
        ambiguity_best_multiplier: 1,
        ambiguity_second_multiplier: 2,
    };
    let generate = |live: &[Gf3258MatcherPoint]| {
        gf3258_generate_match_candidates(
            Gf3258MatcherFeatureSet {
                points: &enrolled,
                polarity_split: 1,
            },
            Gf3258MatcherFeatureSet {
                points: live,
                polarity_split: live.len(),
            },
            cfg,
        )
        .unwrap()
    };
    let result = generate(&live);
    assert_eq!(result.best_scores[0], [2, 2]);
    assert_eq!(result.best_live_indices[0], [1, 3]);
    assert_eq!(result.pair_score_matrix.len(), 180);
    assert_eq!(result.pair_score_matrix[..6], [4, 2, 0xff, 2, 3, 0xff]);
    assert!(result.pair_score_matrix[6..].iter().all(|score| *score == 0xff));

    let alone = generate(&live[..1]);
    assert_eq!(alone.best_scores[0], [4, 0xc0]);
    assert_eq!(alone.best_live_indices[0], [0, -1]);
}
