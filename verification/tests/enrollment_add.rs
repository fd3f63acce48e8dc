use goodix_info::enrollment_add::{
    Gf3258EnrollmentAddError, Gf3258EnrollmentAddKind, Gf3258EnrollmentAddResult,
    Gf3258EnrollmentTemplateCore, Gf3258PreviousRegistrationReject, Gf3258RegistrationEngine,
};
use goodix_info::enrollment_graph::Gf3258EnrollmentSample;
use goodix_info::registration::{
    Gf3258AffineQ8, Gf3258PointRegistration, Gf3258RegistrationMapScores, Gf3258RegistrationPoint,
    Gf3258TransformOps, GF3258_REGISTRATION_PACKED_BYTES,
};

/// Translations only, which is all that these samples need.
fn inverse(t: Gf3258AffineQ8) -> Gf3258AffineQ8 {
    Gf3258AffineQ8 {
        tx: -t.tx,
        ty: -t.ty,
        ..t
    }
}

fn compose(outer: Gf3258AffineQ8, inner: Gf3258AffineQ8) -> Gf3258AffineQ8 {
    Gf3258AffineQ8 {
        tx: outer.tx + inner.tx,
        ty: outer.ty + inner.ty,
        ..inner
    }
}

fn novelty(_mask: &[u8; 160], _transforms: &[Gf3258AffineQ8]) -> i32 {
    0
}

type Transforms = Gf3258TransformOps<
    fn(Gf3258AffineQ8) -> Gf3258AffineQ8,
    fn(Gf3258AffineQ8, Gf3258AffineQ8) -> Gf3258AffineQ8,
    fn(&[u8; 160], &[Gf3258AffineQ8]) -> i32,
>;

fn transforms() -> Transforms {
    Gf3258TransformOps {
        inverse,
        compose,
        novelty,
    }
}

/// Registers points by equal descriptors; the first pair gives the translation
/// from the current sample to the previous one.
fn register(
    previous: &[Gf3258RegistrationPoint],
    current: &[Gf3258RegistrationPoint],
) -> Option<Gf3258PointRegistration> {
    let pairs: Vec<(&Gf3258RegistrationPoint, &Gf3258RegistrationPoint)> = current
        .iter()
        .filter_map(|c| {
            previous
                .iter()
                .find(|p| p.descriptor_192 == c.descriptor_192)
                .map(|p| (p, c))
        })
        .collect();
    let (p, c) = *pairs.first()?;
    Some(Gf3258PointRegistration {
        correspondence_count: pairs.len(),
        inlier_count: pairs.len(),
        transform: Gf3258AffineQ8 {
            tx: i32::from(p.x_q8) - i32::from(c.x_q8),
            ty: i32::from(p.y_q8) - i32::from(c.y_q8),
            ..Gf3258AffineQ8::identity()
        },
    })
}

/// Which pairs are accepted, by inliers and metrics.
fn accepts(inliers: usize, metric_a: i32, metric_b: i32) -> bool {
    match inliers {
        0..=5 => false,
        6 => metric_a >= 216,
        7..=10 => metric_a >= 216 || (metric_a >= 209 && metric_b >= 65),
        _ => true,
    }
}

fn add_with_scorer<S>(
    template: &mut Gf3258EnrollmentTemplateCore,
    points: Vec<Gf3258RegistrationPoint>,
    sample: Gf3258EnrollmentSample,
    threshold: i32,
    score: S,
) -> Result<Gf3258EnrollmentAddResult, Gf3258EnrollmentAddError>
where
    S: Fn(&[Gf3258EnrollmentSample], usize, usize, Gf3258AffineQ8) -> Gf3258RegistrationMapScores,
{
    let engine = Gf3258RegistrationEngine {
        register,
        score,
        accepts,
        transforms: transforms(),
    };
    template.add_sample(points, sample, threshold, &engine)
}

fn descriptor_for(id: usize) -> [u8; 24] {
    let mut d = [0u8; 24];
    // Distinct exact descriptors give best=0.  Repeating a sparse pattern
    // makes every nonmatching descriptor nonzero in Hamming distance.
    d[id % 24] = 1u8 << (id % 8);
    d[(id * 7 + 3) % 24] ^= 0x80;
    d
}

fn base_points(count: usize) -> Vec<Gf3258RegistrationPoint> {
    const XY: &[(u16, u16)] = &[
        (10, 10),
        (20, 10),
        (30, 10),
        (10, 20),
        (20, 20),
        (30, 20),
        (40, 10),
        (40, 20),
        (10, 30),
        (20, 30),
        (30, 30),
        (40, 30),
    ];
    assert!(count <= XY.len());
    XY[..count]
        .iter()
        .enumerate()
        .map(|(id, &(x, y))| Gf3258RegistrationPoint {
            x_q8: x << 8,
            y_q8: y << 8,
            descriptor_192: descriptor_for(id),
        })
        .collect()
}

fn translated_points(
    points: &[Gf3258RegistrationPoint],
    dx_pixels: i32,
    dy_pixels: i32,
) -> Vec<Gf3258RegistrationPoint> {
    points
        .iter()
        .map(|point| Gf3258RegistrationPoint {
            x_q8: (i32::from(point.x_q8) + dx_pixels * 256) as u16,
            y_q8: (i32::from(point.y_q8) + dy_pixels * 256) as u16,
            descriptor_192: point.descriptor_192,
        })
        .collect()
}

fn sample() -> Gf3258EnrollmentSample {
    Gf3258EnrollmentSample {
        canonical_member: false,
        status: 0,
        primary_registration_map: [0u8; GF3258_REGISTRATION_PACKED_BYTES],
        secondary_registration_map: None,
        packed_validity: [0xff; GF3258_REGISTRATION_PACKED_BYTES],
    }
}

fn synthetic_scores(score: i32, metric_a: i32, metric_b: i32) -> Gf3258RegistrationMapScores {
    Gf3258RegistrationMapScores {
        score,
        metric_a,
        metric_b,
    }
}

#[test]
fn first_sample_skips_registration_and_graph_integration() {
    let mut template = Gf3258EnrollmentTemplateCore::new(50);
    let result = add_with_scorer(&mut template, base_points(6), sample(), 208, |_, _, _, _| {
            panic!("first sample must not call map scoring")
        })
        .unwrap();
    assert_eq!(result.kind, Gf3258EnrollmentAddKind::FirstSample);
    assert_eq!(template.sample_count(), 1);
    assert!(result.attempts.is_empty());
    assert!(result.graph_integration.is_none());
}

#[test]
fn six_inliers_require_metric_a_216() {
    let previous = base_points(6);

    let mut reject_template = Gf3258EnrollmentTemplateCore::new(50);
    add_with_scorer(&mut reject_template, previous.clone(), sample(), 208, |_, _, _, _| unreachable!())
        .unwrap();
    let reject = add_with_scorer(&mut reject_template, previous.clone(), sample(), 208, |_, _, _, _| {
            synthetic_scores(255, 215, 255)
        })
        .unwrap();
    assert_eq!(reject.kind, Gf3258EnrollmentAddKind::NoSuccessfulPrevious);
    assert_eq!(reject.attempts[0].geometric_inliers, 6);
    assert_eq!(
        reject.attempts[0].reject_reason,
        Some(Gf3258PreviousRegistrationReject::FinalMetricGate)
    );

    let mut accept_template = Gf3258EnrollmentTemplateCore::new(50);
    add_with_scorer(&mut accept_template, previous.clone(), sample(), 208, |_, _, _, _| unreachable!())
        .unwrap();
    let accept = add_with_scorer(&mut accept_template, previous, sample(), 208, |_, _, _, _| {
            synthetic_scores(255, 216, 0)
        })
        .unwrap();
    assert_eq!(accept.kind, Gf3258EnrollmentAddKind::Integrated);
    assert_eq!(accept.successful_previous, vec![0]);
    let (value, transform) = accept_template
        .graph
        .relation_source_to_target(1, 0, &transforms())
        .unwrap();
    assert_eq!(value, 6);
    assert_eq!(transform, Gf3258AffineQ8::identity());
}

#[test]
fn seven_to_ten_inliers_accept_weak_a_only_with_b_65() {
    let previous = base_points(7);

    let mut template = Gf3258EnrollmentTemplateCore::new(50);
    add_with_scorer(&mut template, previous.clone(), sample(), 208, |_, _, _, _| unreachable!())
        .unwrap();
    let result = add_with_scorer(&mut template, previous, sample(), 208, |_, _, _, _| {
            synthetic_scores(255, 209, 65)
        })
        .unwrap();
    assert_eq!(result.kind, Gf3258EnrollmentAddKind::Integrated);
    assert_eq!(result.attempts[0].geometric_inliers, 7);
    assert!(result.attempts[0].accepted);
}

#[test]
fn eleven_inliers_accept_independent_of_map_metrics() {
    let previous = base_points(11);
    let mut template = Gf3258EnrollmentTemplateCore::new(50);
    add_with_scorer(&mut template, previous.clone(), sample(), 208, |_, _, _, _| unreachable!())
        .unwrap();
    let result = add_with_scorer(&mut template, previous, sample(), 208, |_, _, _, _| {
            synthetic_scores(255, -100, 0)
        })
        .unwrap();
    assert_eq!(result.kind, Gf3258EnrollmentAddKind::Integrated);
    assert_eq!(result.attempts[0].geometric_inliers, 11);
    assert!(result.attempts[0].accepted);
}

#[test]
fn accepted_relation_stores_current_to_previous_direction() {
    let previous = base_points(7);
    let current = translated_points(&previous, 2, 1);
    let mut template = Gf3258EnrollmentTemplateCore::new(50);
    add_with_scorer(&mut template, previous, sample(), 208, |_, _, _, _| unreachable!())
        .unwrap();
    let result = add_with_scorer(&mut template, current, sample(), 208, |_, _, _, _| {
            synthetic_scores(255, 216, 255)
        })
        .unwrap();
    assert_eq!(result.kind, Gf3258EnrollmentAddKind::Integrated);
    let (_, transform) = template.graph.relation_source_to_target(1, 0, &transforms()).unwrap();
    assert_eq!(transform.a, 0x100);
    assert_eq!(transform.b, 0);
    assert_eq!(transform.c, 0);
    assert_eq!(transform.d, 0x100);
    assert_eq!(transform.tx, -0x200);
    assert_eq!(transform.ty, -0x100);
}

#[test]
fn graph_uses_a9a50_return_score_not_ba520_metric_a() {
    let previous = base_points(6);
    let mut template = Gf3258EnrollmentTemplateCore::new(50);
    add_with_scorer(&mut template, previous.clone(), sample(), 208, |_, _, _, _| unreachable!())
        .unwrap();
    let result = add_with_scorer(&mut template, previous, sample(), 208, |_, _, _, _| {
            // ba520 accepts A=216, but b9340's strict >208 test must see
            // the distinct a9a50 return score of 208 and stay unanchored.
            synthetic_scores(208, 216, 255)
        })
        .unwrap();
    assert_eq!(result.kind, Gf3258EnrollmentAddKind::Integrated);
    assert_eq!(result.successful_previous, vec![0]);
    assert_eq!(result.graph_integration.unwrap().canonical_anchor, None);
}

#[test]
fn capacity_limit_is_enforced_before_mutation() {
    let mut template = Gf3258EnrollmentTemplateCore::new(1);
    add_with_scorer(&mut template, base_points(6), sample(), 208, |_, _, _, _| unreachable!())
        .unwrap();
    let error = add_with_scorer(&mut template, base_points(6), sample(), 208, |_, _, _, _| unreachable!())
        .unwrap_err();
    assert_eq!(
        error,
        Gf3258EnrollmentAddError::CapacityReached { capacity: 1 }
    );
    assert_eq!(template.sample_count(), 1);
    assert_eq!(template.graph.samples.len(), 1);
}

#[test]
fn vendor_relation_table_cursor_sequence_is_exact() {
    let expected = [0usize, 1, 2, 4, 7, 11, 16, 22, 29, 37, 46, 56, 67];
    for (sample_count, &cursor) in expected.iter().enumerate() {
        assert_eq!(
            Gf3258EnrollmentTemplateCore::relation_table_cursor_for_sample_count(sample_count),
            cursor
        );
    }
}

#[test]
fn storage_capacity_and_configured_bound_are_distinct() {
    let template = Gf3258EnrollmentTemplateCore::new_with_configured_max_samples(50, 40);
    assert_eq!(template.capacity(), 50);
    assert_eq!(template.configured_max_samples(), 40);
    assert_eq!(template.relation_table_cursor(), 0);
}

#[test]
fn logical_relation_count_includes_nonnegative_graph_records() {
    let previous = base_points(6);
    let mut template = Gf3258EnrollmentTemplateCore::new(50);
    add_with_scorer(&mut template, previous.clone(), sample(), 208, |_, _, _, _| unreachable!())
        .unwrap();
    assert_eq!(template.relation_count(), 0);
    add_with_scorer(&mut template, previous, sample(), 208, |_, _, _, _| {
            synthetic_scores(255, 216, 0)
        })
        .unwrap();
    assert!(template.relation_count() >= 1);
}
