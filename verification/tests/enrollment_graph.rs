use goodix_info::enrollment_graph::{
    gf3258_integrate_enrollment_graph, Gf3258EnrollmentGraph, Gf3258EnrollmentGraphError,
    Gf3258EnrollmentIntegrationResult, Gf3258EnrollmentSample,
};
use goodix_info::registration::{
    Gf3258AffineQ8, Gf3258PairRelation, Gf3258TransformOps, GF3258_REGISTRATION_PACKED_BYTES,
};

/// Translations only, which is all that these graphs hold.
fn inverse(t: Gf3258AffineQ8) -> Gf3258AffineQ8 {
    Gf3258AffineQ8 {
        tx: -t.tx,
        ty: -t.ty,
        ..t
    }
}

fn compose(outer: Gf3258AffineQ8, inner: Gf3258AffineQ8) -> Gf3258AffineQ8 {
    Gf3258AffineQ8 {
        tx: outer.tx + inner.tx,
        ty: outer.ty + inner.ty,
        ..inner
    }
}

/// Cells that no unmoved sample covers.
fn novelty(mask: &[u8; 160], transforms: &[Gf3258AffineQ8]) -> i32 {
    if transforms.contains(&Gf3258AffineQ8::identity()) {
        0
    } else {
        mask.iter().map(|byte| byte.count_ones() as i32).sum()
    }
}

type Ops = Gf3258TransformOps<
    fn(Gf3258AffineQ8) -> Gf3258AffineQ8,
    fn(Gf3258AffineQ8, Gf3258AffineQ8) -> Gf3258AffineQ8,
    fn(&[u8; 160], &[Gf3258AffineQ8]) -> i32,
>;

fn ops() -> Ops {
    Gf3258TransformOps {
        inverse,
        compose,
        novelty,
    }
}

fn integrate<F: Fn(usize, usize, Gf3258AffineQ8) -> i32>(
    graph: &mut Gf3258EnrollmentGraph,
    current: usize,
    successful: &[usize],
    threshold: i32,
    score: F,
) -> Result<Gf3258EnrollmentIntegrationResult, Gf3258EnrollmentGraphError> {
    gf3258_integrate_enrollment_graph(graph, current, successful, threshold, &ops(), &score)
}

fn full_validity() -> [u8; GF3258_REGISTRATION_PACKED_BYTES] {
    [0xff; GF3258_REGISTRATION_PACKED_BYTES]
}

fn sample() -> Gf3258EnrollmentSample {
    Gf3258EnrollmentSample {
        canonical_member: false,
        status: 0,
        primary_registration_map: [0u8; GF3258_REGISTRATION_PACKED_BYTES],
        secondary_registration_map: None,
        packed_validity: full_validity(),
    }
}

fn identity_relation(value: i32) -> Gf3258PairRelation {
    Gf3258PairRelation {
        relation_value: value,
        transform_higher_to_lower: Gf3258AffineQ8::identity(),
    }
}

#[test]
fn first_component_requires_relation_gt_5_and_strict_score_threshold() {
    let mut graph = Gf3258EnrollmentGraph::new(8);
    graph.push_sample(sample());
    graph.push_sample(sample());
    graph
        .relations
        .set_canonical_record(1, 0, identity_relation(6));

    let result = integrate(&mut graph, 1, &[0], 208, |_, _, _| 209).unwrap();
    assert_eq!(result.canonical_anchor, Some(0));
    assert!(graph.samples[0].canonical_member);
    assert!(graph.samples[1].canonical_member);

    let mut equal_score = Gf3258EnrollmentGraph::new(8);
    equal_score.push_sample(sample());
    equal_score.push_sample(sample());
    equal_score
        .relations
        .set_canonical_record(1, 0, identity_relation(6));
    let result = integrate(&mut equal_score, 1, &[0], 209, |_, _, _| 209).unwrap();
    assert_eq!(result.canonical_anchor, None);

    let mut relation_five = Gf3258EnrollmentGraph::new(8);
    relation_five.push_sample(sample());
    relation_five.push_sample(sample());
    relation_five
        .relations
        .set_canonical_record(1, 0, identity_relation(5));
    let result = integrate(&mut relation_five, 1, &[0], 208, |_, _, _| 255).unwrap();
    assert_eq!(result.canonical_anchor, None);
}

#[test]
fn current_attaches_through_strongest_successful_canonical_sample() {
    let mut graph = Gf3258EnrollmentGraph::new(8);
    graph.push_sample(sample());
    graph.push_sample(sample());
    graph.push_sample(sample());
    graph.canonical_anchor = 0;
    graph.canonical_established = true;
    graph.samples[0].canonical_member = true;
    graph.samples[1].canonical_member = true;
    graph
        .relations
        .set_canonical_record(1, 0, identity_relation(0));
    graph
        .relations
        .set_canonical_record(2, 0, identity_relation(7));
    graph
        .relations
        .set_canonical_record(2, 1, identity_relation(9));

    let result = integrate(&mut graph, 2, &[0, 1], 208, |_, _, _| 255).unwrap();

    assert!(result.current_is_canonical);
    assert!(graph.samples[2].canonical_member);
    let (value, transform) = graph.relation_source_to_target(2, 0, &ops()).unwrap();
    assert!(value >= 0);
    assert_eq!(transform, Gf3258AffineQ8::identity());
    assert_eq!(result.novel_coverage, 0);
}

#[test]
fn successful_noncanonical_sample_promotes_at_score_209() {
    let mut graph = Gf3258EnrollmentGraph::new(8);
    graph.push_sample(sample()); // anchor 0
    graph.push_sample(sample()); // noncanonical 1
    graph.push_sample(sample()); // current 2
    graph.canonical_anchor = 0;
    graph.canonical_established = true;
    graph.samples[0].canonical_member = true;
    graph
        .relations
        .set_canonical_record(2, 0, identity_relation(9));
    graph
        .relations
        .set_canonical_record(2, 1, identity_relation(8));

    let result = integrate(&mut graph, 2, &[0, 1], 208, |source, target, _| {
        if source == 2 && target == 1 {
            209
        } else {
            255
        }
    })
    .unwrap();

    assert!(graph.samples[2].canonical_member);
    assert!(graph.samples[1].canonical_member);
    assert!(result.promoted_samples.contains(&1));
    assert_eq!(
        graph.relation_source_to_target(1, 0, &ops()).unwrap().1,
        Gf3258AffineQ8::identity()
    );
}

#[test]
fn transitive_closure_promotes_connected_noncanonical_sample() {
    let mut graph = Gf3258EnrollmentGraph::new(8);
    graph.push_sample(sample()); // anchor 0
    graph.push_sample(sample()); // candidate 1
    graph.push_sample(sample()); // successful seed 2
    graph.push_sample(sample()); // current 3
    graph.canonical_anchor = 0;
    graph.canonical_established = true;
    graph.samples[0].canonical_member = true;
    graph
        .relations
        .set_canonical_record(3, 0, identity_relation(10));
    graph
        .relations
        .set_canonical_record(3, 2, identity_relation(9));
    graph
        .relations
        .set_canonical_record(2, 1, identity_relation(7));

    let result = integrate(&mut graph, 3, &[0, 2], 208, |_, _, _| 255).unwrap();

    assert!(graph.samples[3].canonical_member);
    assert!(graph.samples[2].canonical_member);
    assert!(graph.samples[1].canonical_member);
    assert!(result.promoted_samples.contains(&2));
    assert!(result.promoted_samples.contains(&1));
}

#[test]
fn status_five_sample_is_excluded_from_novel_coverage_subtraction() {
    let mut graph = Gf3258EnrollmentGraph::new(8);
    graph.push_sample(sample()); // anchor 0
    let mut skipped = sample();
    skipped.status = 5;
    skipped.canonical_member = true;
    graph.push_sample(skipped); // 1
    graph.push_sample(sample()); // current 2
    graph.canonical_anchor = 0;
    graph.canonical_established = true;
    graph.samples[0].canonical_member = true;
    graph
        .relations
        .set_canonical_record(1, 0, identity_relation(0));
    graph
        .relations
        .set_canonical_record(2, 0, identity_relation(8));

    let result = integrate(&mut graph, 2, &[0], 208, |_, _, _| 255).unwrap();

    // Anchor 0 alone overlaps the entire current frame, so novelty remains 0;
    // this test primarily verifies that status==5 does not require/use its edge.
    assert_eq!(result.novel_coverage, 0);
}

#[test]
fn members_stay_members_when_a_sample_is_integrated() {
    let mut graph = Gf3258EnrollmentGraph::new(4);
    graph.push_sample(sample());
    graph.push_sample(sample());
    graph
        .relations
        .set_canonical_record(1, 0, identity_relation(6));
    integrate(&mut graph, 1, &[0], 208, |_, _, _| 209).unwrap();
    assert!(graph.samples[0].canonical_member && graph.samples[1].canonical_member);

    graph.push_sample(sample());
    graph
        .relations
        .set_canonical_record(2, 1, identity_relation(6));
    integrate(&mut graph, 2, &[1], 208, |_, _, _| 0).unwrap();
    assert!(graph.samples[0].canonical_member && graph.samples[1].canonical_member);
    assert!(graph.canonical_established);
    assert_eq!(graph.canonical_anchor, 0);
}

#[test]
fn an_edge_is_read_in_both_directions() {
    let shifted = Gf3258AffineQ8 {
        tx: 0x200,
        ty: -0x100,
        ..Gf3258AffineQ8::identity()
    };
    let mut graph = Gf3258EnrollmentGraph::new(4);
    graph.push_sample(sample());
    graph.push_sample(sample());
    assert!(graph.set_relation_source_to_target(0, 1, 9, shifted, &ops()));
    assert_eq!(
        graph.relation_source_to_target(0, 1, &ops()),
        Some((9, shifted))
    );
    assert_eq!(
        graph.relation_source_to_target(1, 0, &ops()),
        Some((9, inverse(shifted)))
    );
}

#[test]
fn only_the_newest_sample_is_integrated() {
    let mut graph = Gf3258EnrollmentGraph::new(4);
    graph.push_sample(sample());
    assert_eq!(
        integrate(&mut graph, 3, &[0], 208, |_, _, _| 255),
        Err(Gf3258EnrollmentGraphError::CurrentIsNotNewest {
            current: 3,
            sample_count: 1,
        })
    );
}

#[test]
fn an_earlier_sample_must_be_earlier() {
    let mut graph = Gf3258EnrollmentGraph::new(4);
    graph.push_sample(sample());
    graph.push_sample(sample());
    assert_eq!(
        integrate(&mut graph, 1, &[1], 208, |_, _, _| 255),
        Err(Gf3258EnrollmentGraphError::PreviousIndexOutOfRange {
            index: 1,
            current: 1,
        })
    );
}

#[test]
fn a_successful_sample_needs_a_relation() {
    let mut graph = Gf3258EnrollmentGraph::new(1);
    graph.push_sample(sample());
    graph.push_sample(sample());
    assert_eq!(
        integrate(&mut graph, 1, &[0], 208, |_, _, _| 255),
        Err(Gf3258EnrollmentGraphError::MissingDirectRelation {
            current: 1,
            previous: 0,
        })
    );
}

#[test]
fn a_member_needs_a_way_to_the_anchor() {
    let mut graph = Gf3258EnrollmentGraph::new(4);
    for _ in 0..3 {
        graph.push_sample(sample());
    }
    graph.canonical_established = true;
    graph.samples[0].canonical_member = true;
    graph.samples[1].canonical_member = true;
    graph
        .relations
        .set_canonical_record(2, 1, identity_relation(9));
    let error = integrate(&mut graph, 2, &[1], 208, |_, _, _| 255).unwrap_err();
    assert_eq!(
        error,
        Gf3258EnrollmentGraphError::MissingCanonicalTransform {
            sample: 1,
            anchor: 0,
        }
    );
    assert_eq!(
        error.debug_text(),
        "MissingCanonicalTransform { sample: 1, anchor: 0 }"
    );
}

#[test]
fn a_founded_component_reports_all_new_members_but_its_anchor() {
    let mut graph = Gf3258EnrollmentGraph::new(8);
    for _ in 0..3 {
        graph.push_sample(sample());
    }
    graph
        .relations
        .set_canonical_record(2, 0, identity_relation(10));
    graph
        .relations
        .set_canonical_record(2, 1, identity_relation(9));

    let result = integrate(&mut graph, 2, &[0, 1], 208, |_, _, _| 255).unwrap();

    assert_eq!(result.canonical_anchor, Some(0));
    assert!(graph.samples.iter().all(|sample| sample.canonical_member));
    assert_eq!(result.promoted_samples, [1]);
}
