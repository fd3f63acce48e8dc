//! Adding samples to an enrollment template: registration against every earlier
//! sample, acceptance, and integration into the enrollment graph.
use vstd::prelude::*;

use crate::enrollment_graph;
use crate::enrollment_graph::{
    Gf3258EnrollmentGraph, Gf3258EnrollmentGraphError, Gf3258EnrollmentIntegrationResult,
    Gf3258EnrollmentSample, GraphModel, GraphState,
};
use crate::feature::descriptor::Gf3258CompactDescriptor;
use crate::feature::Gf3258FeaturePointCore;
use crate::registration;
use crate::registration::{
    Gf3258AffineQ8, Gf3258PointRegistration, Gf3258RegistrationMapScores, Gf3258RegistrationPoint,
    Gf3258TransformOps,
};
use crate::text;

verus! {

/// A feature point as it is retained with a sample.
#[derive(Debug, Clone, Copy, PartialEq, Eq)]
pub struct Gf3258EnrollmentFeaturePoint {
    pub core: Gf3258FeaturePointCore,
    pub compact: Gf3258CompactDescriptor,
}

impl Gf3258EnrollmentFeaturePoint {
    pub fn registration_point(&self) -> (point: Gf3258RegistrationPoint)
        ensures
            point.x_q8 == self.core.x_q8,
            point.y_q8 == self.core.y_q8,
            point.descriptor_192@ == self.compact.point_bytes().take(24),
    {
        Gf3258RegistrationPoint::from_feature_components(&self.core, &self.compact)
    }
}

/// Scalars that are carried from the source feature into storage.
#[derive(Debug, Clone, Copy, PartialEq, Eq)]
pub struct Gf3258PersistentSourceScalars {
    pub scalar_108: i32,
    pub c2d40_param3: i32,
    pub c2d40_param4: i32,
    pub scalar_13c: i32,
    pub embedded_state_140: i32,
}

impl Default for Gf3258PersistentSourceScalars {
    fn default() -> (scalars: Self)
        ensures
            scalars == (Gf3258PersistentSourceScalars {
                scalar_108: 0,
                c2d40_param3: 0,
                c2d40_param4: 0,
                scalar_13c: 0,
                embedded_state_140: 0,
            }),
    {
        Gf3258PersistentSourceScalars {
            scalar_108: 0,
            c2d40_param3: 0,
            c2d40_param4: 0,
            scalar_13c: 0,
            embedded_state_140: 0,
        }
    }
}

/// Everything that is stored of one sample.
#[derive(Debug, Clone, PartialEq, Eq)]
pub struct Gf3258PersistentSampleState {
    pub points: Vec<Gf3258EnrollmentFeaturePoint>,
    pub primary_registration_map: [u8; 160],
    pub secondary_registration_map: Option<[u8; 160]>,
    pub low_threshold_registration_map: [u8; 160],
    pub quarter_validity_packed: [u8; 40],
    pub active_validity_packed: [u8; 160],
    pub canonical_member: bool,
    pub relation_checkpoint: i32,
    pub sample_index: i32,
    pub scalar_108: i32,
    pub c2d40_param3: i32,
    pub c2d40_param4: i32,
    pub scalar_13c: i32,
    pub embedded_state_140: i32,
}

#[derive(Debug, Clone, Copy, PartialEq, Eq)]
pub enum Gf3258PreviousRegistrationReject {
    FewerThanFiveDescriptorCorrespondences,
    FewerThanFiveGeometricInliers,
    FinalMetricGate,
}

/// The attempt to register the new sample against one earlier sample.
#[derive(Debug, Clone, Copy, PartialEq, Eq)]
pub struct Gf3258PreviousRegistrationAttempt {
    pub previous_index: usize,
    pub correspondence_count: usize,
    pub geometric_inliers: usize,
    pub transform_current_to_previous: Option<Gf3258AffineQ8>,
    pub map_scores: Option<Gf3258RegistrationMapScores>,
    pub accepted: bool,
    pub reject_reason: Option<Gf3258PreviousRegistrationReject>,
}

#[derive(Debug, Clone, Copy, PartialEq, Eq)]
pub enum Gf3258EnrollmentAddKind {
    /// The first sample is registered against nothing.
    FirstSample,
    /// The sample was kept, but no earlier sample accepted it.
    NoSuccessfulPrevious,
    /// At least one earlier sample accepted it, and the graph took it in.
    Integrated,
}

#[derive(Debug, Clone, PartialEq, Eq)]
pub struct Gf3258EnrollmentAddResult {
    pub kind: Gf3258EnrollmentAddKind,
    pub current_index: usize,
    pub successful_previous: Vec<usize>,
    pub attempts: Vec<Gf3258PreviousRegistrationAttempt>,
    pub graph_integration: Option<Gf3258EnrollmentIntegrationResult>,
}

#[derive(Debug, Clone, PartialEq, Eq)]
pub enum Gf3258EnrollmentAddError {
    CapacityReached { capacity: usize },
    Graph(Gf3258EnrollmentGraphError),
}

impl From<Gf3258EnrollmentGraphError> for Gf3258EnrollmentAddError {
    fn from(value: Gf3258EnrollmentGraphError) -> Self {
        Gf3258EnrollmentAddError::Graph(value)
    }
}

impl vstd::std_specs::convert::FromSpecImpl<Gf3258EnrollmentGraphError> for Gf3258EnrollmentAddError {
    open spec fn obeys_from_spec() -> bool {
        true
    }

    open spec fn from_spec(value: Gf3258EnrollmentGraphError) -> Self {
        Gf3258EnrollmentAddError::Graph(value)
    }
}

/// The registration of samples that a template is built with: registering the
/// points of an earlier sample and the current one, scoring two samples under a
/// transform, and accepting a pair by its inliers and metrics; and the
/// arithmetic on transforms.
pub struct Gf3258RegistrationEngine<R, S, A, I, C, N> {
    pub register: R,
    pub score: S,
    pub accepts: A,
    pub transforms: Gf3258TransformOps<I, C, N>,
}

/// The engine as functions.
pub struct EngineModel {
    pub register: spec_fn(
        Seq<Gf3258RegistrationPoint>,
        Seq<Gf3258RegistrationPoint>,
    ) -> Option<Gf3258PointRegistration>,
    pub score: spec_fn(
        Seq<Gf3258EnrollmentSample>,
        usize,
        usize,
        Gf3258AffineQ8,
    ) -> Gf3258RegistrationMapScores,
    pub accepts: spec_fn(usize, i32, i32) -> bool,
    pub inverse: spec_fn(Gf3258AffineQ8) -> Gf3258AffineQ8,
    pub compose: spec_fn(Gf3258AffineQ8, Gf3258AffineQ8) -> Gf3258AffineQ8,
    pub novelty: spec_fn([u8; 160], Seq<Gf3258AffineQ8>) -> i32,
}

/// `register` may return `r` for the given points.
pub open spec fn register_returns<
    R: Fn(&[Gf3258RegistrationPoint], &[Gf3258RegistrationPoint]) -> Option<
        Gf3258PointRegistration,
    >,
>(
    register: R,
    previous: Seq<Gf3258RegistrationPoint>,
    current: Seq<Gf3258RegistrationPoint>,
    r: Option<Gf3258PointRegistration>,
) -> bool {
    exists|a: &[Gf3258RegistrationPoint], b: &[Gf3258RegistrationPoint]|
        a@ == previous && b@ == current && #[trigger] call_ensures(register, (a, b), r)
}

/// `score` may return `r` for the given samples and pair.
pub open spec fn score_returns<
    S: Fn(&[Gf3258EnrollmentSample], usize, usize, Gf3258AffineQ8) -> Gf3258RegistrationMapScores,
>(
    score: S,
    samples: Seq<Gf3258EnrollmentSample>,
    source: usize,
    target: usize,
    t: Gf3258AffineQ8,
    r: Gf3258RegistrationMapScores,
) -> bool {
    exists|list: &[Gf3258EnrollmentSample]|
        list@ == samples && #[trigger] call_ensures(score, (list, source, target, t), r)
}

impl<R, S, A, I, C, N> Gf3258RegistrationEngine<R, S, A, I, C, N> where
    R: Fn(&[Gf3258RegistrationPoint], &[Gf3258RegistrationPoint]) -> Option<
        Gf3258PointRegistration,
    >,
    S: Fn(&[Gf3258EnrollmentSample], usize, usize, Gf3258AffineQ8) -> Gf3258RegistrationMapScores,
    A: Fn(usize, i32, i32) -> bool,
    I: Fn(Gf3258AffineQ8) -> Gf3258AffineQ8,
    C: Fn(Gf3258AffineQ8, Gf3258AffineQ8) -> Gf3258AffineQ8,
    N: Fn(&[u8; 160], &[Gf3258AffineQ8]) -> i32,
 {
    pub open spec fn model(&self) -> EngineModel {
        EngineModel {
            register: |
                previous: Seq<Gf3258RegistrationPoint>,
                current: Seq<Gf3258RegistrationPoint>,
            |
                choose|r: Option<Gf3258PointRegistration>|
                    register_returns(self.register, previous, current, r),
            score: |
                samples: Seq<Gf3258EnrollmentSample>,
                source: usize,
                target: usize,
                t: Gf3258AffineQ8,
            |
                choose|r: Gf3258RegistrationMapScores|
                    score_returns(self.score, samples, source, target, t, r),
            accepts: |inliers: usize, a: i32, b: i32|
                choose|r: bool| call_ensures(self.accepts, (inliers, a, b), r),
            inverse: enrollment_graph::inverse_model(&self.transforms),
            compose: enrollment_graph::compose_model(&self.transforms),
            novelty: enrollment_graph::novelty_model(&self.transforms),
        }
    }

    /// The engine accepts every argument, and equal arguments give equal
    /// results.
    pub open spec fn deterministic(&self) -> bool {
        &&& self.transforms.deterministic()
        &&& forall|a: &[Gf3258RegistrationPoint], b: &[Gf3258RegistrationPoint]| #[trigger]
            call_requires(self.register, (a, b))
        &&& forall|
            a: &[Gf3258RegistrationPoint],
            b: &[Gf3258RegistrationPoint],
            r: Option<Gf3258PointRegistration>,
            c: &[Gf3258RegistrationPoint],
            d: &[Gf3258RegistrationPoint],
            other: Option<Gf3258PointRegistration>,
        |
            a@ == c@ && b@ == d@ && #[trigger] call_ensures(self.register, (a, b), r)
                && #[trigger] call_ensures(self.register, (c, d), other) ==> r == other
        &&& forall|
            list: &[Gf3258EnrollmentSample],
            source: usize,
            target: usize,
            t: Gf3258AffineQ8,
        | #[trigger]
            call_requires(self.score, (list, source, target, t))
        &&& forall|
            list: &[Gf3258EnrollmentSample],
            other_list: &[Gf3258EnrollmentSample],
            source: usize,
            target: usize,
            t: Gf3258AffineQ8,
            r: Gf3258RegistrationMapScores,
            other: Gf3258RegistrationMapScores,
        |
            list@ == other_list@ && #[trigger] call_ensures(
                self.score,
                (list, source, target, t),
                r,
            ) && #[trigger] call_ensures(self.score, (other_list, source, target, t), other) ==> r
                == other
        &&& forall|inliers: usize, a: i32, b: i32| #[trigger]
            call_requires(self.accepts, (inliers, a, b))
        &&& forall|inliers: usize, a: i32, b: i32, r: bool| #[trigger]
            call_ensures(self.accepts, (inliers, a, b), r) ==> r == (self.model().accepts)(
                inliers,
                a,
                b,
            )
    }

    proof fn lemma_scored(
        &self,
        list: &[Gf3258EnrollmentSample],
        source: usize,
        target: usize,
        t: Gf3258AffineQ8,
        r: Gf3258RegistrationMapScores,
    )
        requires
            self.deterministic(),
            call_ensures(self.score, (list, source, target, t), r),
        ensures
            r == (self.model().score)(list@, source, target, t),
    {
        assert(score_returns(self.score, list@, source, target, t, r));
    }
}

/// The functions of the graph when it scores the given samples.
pub open spec fn graph_model(m: EngineModel, samples: Seq<Gf3258EnrollmentSample>) -> GraphModel {
    GraphModel {
        inverse: m.inverse,
        compose: m.compose,
        novelty: m.novelty,
        score: |source: usize, target: usize, t: Gf3258AffineQ8|
            (m.score)(samples, source, target, t).score,
    }
}

/// The attempt to register the newest sample against sample `previous`.
pub open spec fn attempt_of(
    m: EngineModel,
    points: Seq<Seq<Gf3258RegistrationPoint>>,
    samples: Seq<Gf3258EnrollmentSample>,
    previous: int,
) -> Gf3258PreviousRegistrationAttempt {
    let current = points.len() - 1;
    match (m.register)(points[previous], points[current]) {
        None => Gf3258PreviousRegistrationAttempt {
            previous_index: previous as usize,
            correspondence_count: 0,
            geometric_inliers: 0,
            transform_current_to_previous: None,
            map_scores: None,
            accepted: false,
            reject_reason: Some(
                Gf3258PreviousRegistrationReject::FewerThanFiveDescriptorCorrespondences,
            ),
        },
        Some(registration) => if registration.inlier_count <= 4 {
            Gf3258PreviousRegistrationAttempt {
                previous_index: previous as usize,
                correspondence_count: registration.correspondence_count,
                geometric_inliers: registration.inlier_count,
                transform_current_to_previous: Some(registration.transform),
                map_scores: None,
                accepted: false,
                reject_reason: Some(
                    Gf3258PreviousRegistrationReject::FewerThanFiveGeometricInliers,
                ),
            }
        } else {
            let scores = (m.score)(
                samples,
                current as usize,
                previous as usize,
                registration.transform,
            );
            let accepted = (m.accepts)(
                registration.inlier_count,
                scores.metric_a,
                scores.metric_b,
            );
            Gf3258PreviousRegistrationAttempt {
                previous_index: previous as usize,
                correspondence_count: registration.correspondence_count,
                geometric_inliers: registration.inlier_count,
                transform_current_to_previous: Some(registration.transform),
                map_scores: Some(scores),
                accepted,
                reject_reason: if accepted {
                    None
                } else {
                    Some(Gf3258PreviousRegistrationReject::FinalMetricGate)
                },
            }
        },
    }
}

/// The attempts against all earlier samples, in order.
pub open spec fn attempts_of(
    m: EngineModel,
    points: Seq<Seq<Gf3258RegistrationPoint>>,
    samples: Seq<Gf3258EnrollmentSample>,
) -> Seq<Gf3258PreviousRegistrationAttempt> {
    Seq::new((points.len() - 1) as nat, |p: int| attempt_of(m, points, samples, p))
}

/// The earlier samples below `n` that accepted the newest one.
pub open spec fn accepted_previous(
    attempts: Seq<Gf3258PreviousRegistrationAttempt>,
    n: nat,
) -> Seq<usize>
    decreases n,
{
    if n == 0 {
        Seq::empty()
    } else {
        let before = accepted_previous(attempts, (n - 1) as nat);
        if attempts[n - 1].accepted {
            before.push((n - 1) as usize)
        } else {
            before
        }
    }
}

/// The relation rows with the accepted edges from the newest sample stored.
pub open spec fn with_accepted_edges(
    rows: Seq<Seq<registration::Gf3258PairRelation>>,
    inverse: spec_fn(Gf3258AffineQ8) -> Gf3258AffineQ8,
    current: int,
    attempts: Seq<Gf3258PreviousRegistrationAttempt>,
    n: nat,
) -> Seq<Seq<registration::Gf3258PairRelation>>
    decreases n,
{
    if n == 0 {
        rows
    } else {
        let before = with_accepted_edges(rows, inverse, current, attempts, (n - 1) as nat);
        let attempt = attempts[n - 1];
        if attempt.accepted {
            enrollment_graph::with_edge(
                before,
                inverse,
                current,
                n - 1,
                attempt.geometric_inliers as i32,
                attempt.transform_current_to_previous->Some_0,
            )
        } else {
            before
        }
    }
}

/// Position in the stored relation table for a number of samples: one extra
/// record, and one per pair.
pub open spec fn table_cursor(sample_count: int) -> int {
    if sample_count == 0 {
        0
    } else {
        1 + sample_count * (sample_count - 1) / 2
    }
}

/// Contents of a template.
pub struct TemplateState {
    pub storage_capacity: usize,
    pub configured_max_samples: usize,
    pub graph: GraphState,
    pub points: Seq<Seq<Gf3258RegistrationPoint>>,
    pub persistent: Seq<Option<Gf3258PersistentSampleState>>,
}

/// Stored samples with the canonical flags of the graph.
pub open spec fn with_flags(
    persistent: Seq<Option<Gf3258PersistentSampleState>>,
    samples: Seq<Gf3258EnrollmentSample>,
) -> Seq<Option<Gf3258PersistentSampleState>> {
    Seq::new(
        persistent.len(),
        |i: int|
            match persistent[i] {
                Some(sample) => Some(
                    Gf3258PersistentSampleState {
                        canonical_member: i < samples.len() && samples[i].canonical_member,
                        ..sample
                    },
                ),
                None => None,
            },
    )
}

/// A stored sample as it is retained at position `index`.
pub open spec fn retained(
    persistent: Option<Gf3258PersistentSampleState>,
    index: int,
) -> Option<Gf3258PersistentSampleState> {
    match persistent {
        Some(sample) => Some(
            Gf3258PersistentSampleState {
                canonical_member: false,
                relation_checkpoint: table_cursor(index) as i32,
                sample_index: index as i32,
                ..sample
            },
        ),
        None => None,
    }
}

/// The template with a new sample appended, before it is registered.
pub open spec fn with_sample(
    t: TemplateState,
    points: Seq<Gf3258RegistrationPoint>,
    sample: Gf3258EnrollmentSample,
    persistent: Option<Gf3258PersistentSampleState>,
) -> TemplateState {
    TemplateState {
        graph: GraphState { samples: t.graph.samples.push(sample), ..t.graph },
        points: t.points.push(points),
        persistent: t.persistent.push(retained(persistent, t.points.len() as int)),
        ..t
    }
}

/// What adding a sample reports.
pub struct AddOutcome {
    pub kind: Gf3258EnrollmentAddKind,
    pub current_index: usize,
    pub successful_previous: Seq<usize>,
    pub attempts: Seq<Gf3258PreviousRegistrationAttempt>,
    /// Promoted samples and novel coverage, where the graph took the sample in.
    pub integration: Option<(Seq<usize>, i32)>,
}

/// The template after adding a sample, and what is reported.
pub open spec fn added(
    t: TemplateState,
    m: EngineModel,
    points: Seq<Gf3258RegistrationPoint>,
    sample: Gf3258EnrollmentSample,
    persistent: Option<Gf3258PersistentSampleState>,
    graph_score_threshold: i32,
) -> (TemplateState, Result<AddOutcome, Gf3258EnrollmentAddError>) {
    let current = t.points.len() as usize;
    if current >= t.configured_max_samples {
        (
            t,
            Err(Gf3258EnrollmentAddError::CapacityReached { capacity: t.configured_max_samples }),
        )
    } else {
        let grown = with_sample(t, points, sample, persistent);
        if current == 0 {
            (
                TemplateState {
                    persistent: with_flags(grown.persistent, grown.graph.samples),
                    ..grown
                },
                Ok(
                    AddOutcome {
                        kind: Gf3258EnrollmentAddKind::FirstSample,
                        current_index: current,
                        successful_previous: Seq::empty(),
                        attempts: Seq::empty(),
                        integration: None,
                    },
                ),
            )
        } else {
            let attempts = attempts_of(m, grown.points, grown.graph.samples);
            let successful = accepted_previous(attempts, attempts.len());
            let registered = TemplateState {
                graph: GraphState {
                    rows: with_accepted_edges(
                        grown.graph.rows,
                        m.inverse,
                        current as int,
                        attempts,
                        attempts.len(),
                    ),
                    ..grown.graph
                },
                ..grown
            };
            if successful.len() == 0 {
                (
                    TemplateState {
                        persistent: with_flags(registered.persistent, registered.graph.samples),
                        ..registered
                    },
                    Ok(
                        AddOutcome {
                            kind: Gf3258EnrollmentAddKind::NoSuccessfulPrevious,
                            current_index: current,
                            successful_previous: successful,
                            attempts,
                            integration: None,
                        },
                    ),
                )
            } else {
                match enrollment_graph::integrated(
                    registered.graph,
                    graph_model(m, registered.graph.samples),
                    current,
                    successful,
                    graph_score_threshold,
                ) {
                    (graph, Ok(integration)) => (
                        TemplateState {
                            graph,
                            persistent: with_flags(registered.persistent, graph.samples),
                            ..registered
                        },
                        Ok(
                            AddOutcome {
                                kind: Gf3258EnrollmentAddKind::Integrated,
                                current_index: current,
                                successful_previous: successful,
                                attempts,
                                integration: Some(integration),
                            },
                        ),
                    ),
                    (graph, Err(error)) => (
                        TemplateState { graph, ..registered },
                        Err(Gf3258EnrollmentAddError::Graph(error)),
                    ),
                }
            }
        }
    }
}

/// The samples of an enrollment: their registration points, what is stored of
/// them, and the graph of their relations.
#[derive(Debug, Clone, PartialEq, Eq)]
pub struct Gf3258EnrollmentTemplateCore {
    /// Number of sample slots.
    pub storage_capacity: usize,
    /// Number of samples that are taken.
    pub configured_max_samples: usize,
    pub graph: Gf3258EnrollmentGraph,
    pub point_sets: Vec<Vec<Gf3258RegistrationPoint>>,
    pub persistent_samples: Vec<Option<Gf3258PersistentSampleState>>,
}

/// Gives the stored samples the canonical flags of the graph.
fn sync_flags(
    persistent: &mut Vec<Option<Gf3258PersistentSampleState>>,
    samples: &Vec<Gf3258EnrollmentSample>,
)
    ensures
        final(persistent)@ == with_flags(old(persistent)@, samples@),
{
    let ghost before = persistent@;
    let count: usize = persistent.len();
    for i in 0..count
        invariant
            count == before.len(),
            persistent@.len() == before.len(),
            forall|j: int| 0 <= j < i ==> persistent@[j] == with_flags(before, samples@)[j],
            forall|j: int| i <= j < before.len() ==> persistent@[j] == before[j],
    {
        let member: bool = i < samples.len() && samples[i].canonical_member;
        match &mut persistent[i] {
            Some(sample) => {
                sample.canonical_member = member;
            },
            None => {},
        }
    }
    assert(persistent@ =~= with_flags(before, samples@));
}

/// The set of points of every sample.
pub open spec fn point_views(sets: Seq<Vec<Gf3258RegistrationPoint>>) -> Seq<
    Seq<Gf3258RegistrationPoint>,
> {
    Seq::new(sets.len(), |i: int| sets[i]@)
}

/// Number of pairs of a number of samples, twice, stays below its square.
proof fn lemma_pairs_bounded(n: int, limit: int)
    requires
        0 <= n <= limit,
    ensures
        n > 0 ==> 0 <= n * (n - 1) <= limit * limit - 1,
{
    if n > 0 {
        assert(0 <= n * (n - 1) && n * (n - 1) <= limit * limit - 1) by (nonlinear_arith)
            requires
                0 < n <= limit,
        ;
    }
}

/// A template without samples and relations.
pub open spec fn is_empty_template(
    t: TemplateState,
    storage_capacity: usize,
    configured_max_samples: usize,
) -> bool {
    &&& t.storage_capacity == storage_capacity
    &&& t.configured_max_samples == configured_max_samples
    &&& t.points.len() == 0
    &&& t.persistent.len() == 0
    &&& t.graph.samples.len() == 0
    &&& t.graph.rows.len() == storage_capacity
    &&& forall|x: int, y: int|
        0 <= y < x < storage_capacity ==> #[trigger] t.graph.rows[x][y]
            == registration::absent_relation()
    &&& t.graph.anchor == 0
    &&& !t.graph.established
}

impl Gf3258EnrollmentTemplateCore {
    pub open spec fn state(&self) -> TemplateState {
        TemplateState {
            storage_capacity: self.storage_capacity,
            configured_max_samples: self.configured_max_samples,
            graph: self.graph.state(),
            points: point_views(self.point_sets@),
            persistent: self.persistent_samples@,
        }
    }

    /// One entry per sample everywhere, and no more samples than configured.
    pub open spec fn wf(&self) -> bool {
        let t = self.state();
        &&& self.graph.wf()
        &&& t.graph.samples.len() == t.points.len()
        &&& t.persistent.len() == t.points.len()
        &&& t.points.len() <= t.configured_max_samples <= t.storage_capacity
        &&& t.storage_capacity * t.storage_capacity <= usize::MAX
    }

    /// A template whose storage and configured bounds are the same.
    pub fn new(capacity: usize) -> (template: Self)
        requires
            capacity * capacity <= usize::MAX,
        ensures
            template.wf(),
            is_empty_template(template.state(), capacity, capacity),
    {
        Self::new_with_configured_max_samples(capacity, capacity)
    }

    /// An empty template with room for `storage_capacity` samples that takes up
    /// to `configured_max_samples`.
    pub fn new_with_configured_max_samples(
        storage_capacity: usize,
        configured_max_samples: usize,
    ) -> (template: Self)
        requires
            configured_max_samples <= storage_capacity,
            storage_capacity * storage_capacity <= usize::MAX,
        ensures
            template.wf(),
            is_empty_template(template.state(), storage_capacity, configured_max_samples),
    {
        Gf3258EnrollmentTemplateCore {
            storage_capacity,
            configured_max_samples,
            graph: Gf3258EnrollmentGraph::new(storage_capacity),
            point_sets: Vec::with_capacity(storage_capacity),
            persistent_samples: Vec::with_capacity(storage_capacity),
        }
    }

    pub fn capacity(&self) -> (capacity: usize)
        ensures
            capacity == self.state().storage_capacity,
    {
        self.storage_capacity
    }

    pub fn configured_max_samples(&self) -> (configured: usize)
        ensures
            configured == self.state().configured_max_samples,
    {
        self.configured_max_samples
    }

    pub fn sample_count(&self) -> (count: usize)
        ensures
            count == self.state().points.len(),
    {
        self.point_sets.len()
    }

    /// What is stored of a sample, if anything is.
    pub fn persistent_sample(&self, index: usize) -> (sample: Option<&Gf3258PersistentSampleState>)
        ensures
            match sample {
                Some(sample) => index < self.state().persistent.len()
                    && self.state().persistent[index as int] == Some(*sample),
                None => index >= self.state().persistent.len()
                    || self.state().persistent[index as int] is None,
            },
    {
        if index >= self.persistent_samples.len() {
            return None;
        }
        match &self.persistent_samples[index] {
            Some(sample) => Some(sample),
            None => None,
        }
    }

    /// Number of pairs of samples with an edge.
    pub fn relation_count(&self) -> (count: usize)
        requires
            self.wf(),
        ensures
            count == edge_count(
                self.state().graph.rows,
                self.state().points.len(),
                0,
            ),
    {
        let n: usize = self.sample_count();
        let mut count: usize = 0;
        for high in 0..n
            invariant
                n == self.state().points.len(),
                self.wf(),
                count == edge_count(self.graph.relations@, high as nat, 0),
                count <= high * n,
        {
            let ghost whole = count;
            for low in 0..high
                invariant
                    high < n,
                    n == self.state().points.len(),
                    self.wf(),
                    whole <= high * n,
                    whole + low <= count + low <= whole + low + low,
                    count == edge_count(self.graph.relations@, high as nat, low as nat),
            {
                proof {
                    lemma_area(high as int, n as int, self.state().storage_capacity as int);
                }
                match self.graph.relations.canonical_record(high, low) {
                    Some(record) => {
                        if record.relation_value >= 0 {
                            count = count + 1;
                        }
                    },
                    None => {},
                }
            }
            proof {
                lemma_area(high as int, n as int, self.state().storage_capacity as int);
            }
        }
        count
    }

    /// Position in the stored relation table for a number of samples.
    pub fn relation_table_cursor_for_sample_count(sample_count: usize) -> (cursor: usize)
        requires
            sample_count * (sample_count - 1) <= usize::MAX,
        ensures
            cursor == table_cursor(sample_count as int),
    {
        if sample_count == 0 {
            0
        } else {
            assert(0 <= sample_count * (sample_count - 1)) by (nonlinear_arith)
                requires
                    sample_count > 0,
            ;
            1 + sample_count * (sample_count - 1) / 2
        }
    }

    pub fn relation_table_cursor(&self) -> (cursor: usize)
        requires
            self.wf(),
        ensures
            cursor == table_cursor(self.state().points.len() as int),
    {
        proof {
            lemma_pairs_bounded(
                self.state().points.len() as int,
                self.state().storage_capacity as int,
            );
        }
        Self::relation_table_cursor_for_sample_count(self.sample_count())
    }
}

/// Number of edges among the records of the rows below `high`, and of the first
/// `low` records of row `high`.
pub open spec fn edge_count(
    rows: Seq<Seq<registration::Gf3258PairRelation>>,
    high: nat,
    low: nat,
) -> nat
    decreases high, low,
{
    if low > 0 {
        edge_count(rows, high, (low - 1) as nat) + (match registration::table_record(
            rows,
            high as int,
            low - 1,
        ) {
            Some(record) => if record.relation_value >= 0 {
                1nat
            } else {
                0nat
            },
            None => 0nat,
        })
    } else if high > 0 {
        edge_count(rows, (high - 1) as nat, (high - 1) as nat)
    } else {
        0
    }
}

proof fn lemma_area(high: int, n: int, limit: int)
    requires
        0 <= high < n <= limit,
        limit * limit <= usize::MAX,
    ensures
        high * n + n == (high + 1) * n,
        (high + 1) * n <= usize::MAX,
{
    assert(high * n + n == (high + 1) * n) by (nonlinear_arith);
    assert((high + 1) * n <= limit * limit) by (nonlinear_arith)
        requires
            0 <= high < n <= limit,
    ;
}

/// Registers the newest sample against one earlier sample.
fn attempt_registration<R, S, A, I, C, N>(
    point_sets: &Vec<Vec<Gf3258RegistrationPoint>>,
    samples: &Vec<Gf3258EnrollmentSample>,
    previous: usize,
    engine: &Gf3258RegistrationEngine<R, S, A, I, C, N>,
) -> (attempt: Gf3258PreviousRegistrationAttempt) where
    R: Fn(&[Gf3258RegistrationPoint], &[Gf3258RegistrationPoint]) -> Option<
        Gf3258PointRegistration,
    >,
    S: Fn(&[Gf3258EnrollmentSample], usize, usize, Gf3258AffineQ8) -> Gf3258RegistrationMapScores,
    A: Fn(usize, i32, i32) -> bool,
    I: Fn(Gf3258AffineQ8) -> Gf3258AffineQ8,
    C: Fn(Gf3258AffineQ8, Gf3258AffineQ8) -> Gf3258AffineQ8,
    N: Fn(&[u8; 160], &[Gf3258AffineQ8]) -> i32,

    requires
        engine.deterministic(),
        previous < point_sets@.len(),
    ensures
        attempt == attempt_of(
            engine.model(),
            point_views(point_sets@),
            samples@,
            previous as int,
        ),
        attempt.accepted ==> attempt.transform_current_to_previous is Some,
{
    let current: usize = point_sets.len() - 1;
    let previous_points: &[Gf3258RegistrationPoint] = point_sets[previous].as_slice();
    let current_points: &[Gf3258RegistrationPoint] = point_sets[current].as_slice();
    let registered: Option<Gf3258PointRegistration> = (engine.register)(
        previous_points,
        current_points,
    );
    assert(register_returns(
        engine.register,
        previous_points@,
        current_points@,
        registered,
    ));
    let registration: Gf3258PointRegistration = match registered {
        Some(registration) => registration,
        None => {
            return Gf3258PreviousRegistrationAttempt {
                previous_index: previous,
                correspondence_count: 0,
                geometric_inliers: 0,
                transform_current_to_previous: None,
                map_scores: None,
                accepted: false,
                reject_reason: Some(
                    Gf3258PreviousRegistrationReject::FewerThanFiveDescriptorCorrespondences,
                ),
            };
        },
    };
    if registration.inlier_count <= 4 {
        return Gf3258PreviousRegistrationAttempt {
            previous_index: previous,
            correspondence_count: registration.correspondence_count,
            geometric_inliers: registration.inlier_count,
            transform_current_to_previous: Some(registration.transform),
            map_scores: None,
            accepted: false,
            reject_reason: Some(Gf3258PreviousRegistrationReject::FewerThanFiveGeometricInliers),
        };
    }
    let list: &[Gf3258EnrollmentSample] = samples.as_slice();
    let scores: Gf3258RegistrationMapScores = (engine.score)(
        list,
        current,
        previous,
        registration.transform,
    );
    proof {
        engine.lemma_scored(list, current, previous, registration.transform, scores);
    }
    let accepted: bool = (engine.accepts)(
        registration.inlier_count,
        scores.metric_a,
        scores.metric_b,
    );
    Gf3258PreviousRegistrationAttempt {
        previous_index: previous,
        correspondence_count: registration.correspondence_count,
        geometric_inliers: registration.inlier_count,
        transform_current_to_previous: Some(registration.transform),
        map_scores: Some(scores),
        accepted,
        reject_reason: if accepted {
            None
        } else {
            Some(Gf3258PreviousRegistrationReject::FinalMetricGate)
        },
    }
}

/// `result` reports `outcome` of a template whose graph ended in `graph`.
pub open spec fn reports(
    result: Result<Gf3258EnrollmentAddResult, Gf3258EnrollmentAddError>,
    outcome: Result<AddOutcome, Gf3258EnrollmentAddError>,
    graph: GraphState,
) -> bool {
    match outcome {
        Err(error) => result == Err::<Gf3258EnrollmentAddResult, Gf3258EnrollmentAddError>(error),
        Ok(outcome) => {
            &&& result is Ok
            &&& result->Ok_0.kind == outcome.kind
            &&& result->Ok_0.current_index == outcome.current_index
            &&& result->Ok_0.successful_previous@ == outcome.successful_previous
            &&& result->Ok_0.attempts@ == outcome.attempts
            &&& match outcome.integration {
                None => result->Ok_0.graph_integration is None,
                Some((joined, novel)) => {
                    &&& result->Ok_0.graph_integration is Some
                    &&& result->Ok_0.graph_integration->Some_0.current_index
                        == outcome.current_index
                    &&& result->Ok_0.graph_integration->Some_0.canonical_anchor == (
                    if graph.established {
                        Some(graph.anchor)
                    } else {
                        None
                    })
                    &&& result->Ok_0.graph_integration->Some_0.current_is_canonical
                        == graph.samples[outcome.current_index as int].canonical_member
                    &&& result->Ok_0.graph_integration->Some_0.promoted_samples@ == joined
                    &&& result->Ok_0.graph_integration->Some_0.novel_coverage == novel
                },
            }
        },
    }
}

impl Gf3258EnrollmentTemplateCore {
    /// Adds a sample of which nothing is stored.
    pub fn add_sample<R, S, A, I, C, N>(
        &mut self,
        points: Vec<Gf3258RegistrationPoint>,
        graph_sample: Gf3258EnrollmentSample,
        graph_score_threshold: i32,
        engine: &Gf3258RegistrationEngine<R, S, A, I, C, N>,
    ) -> (result: Result<Gf3258EnrollmentAddResult, Gf3258EnrollmentAddError>) where
        R: Fn(&[Gf3258RegistrationPoint], &[Gf3258RegistrationPoint]) -> Option<
            Gf3258PointRegistration,
        >,
        S: Fn(&[Gf3258EnrollmentSample], usize, usize, Gf3258AffineQ8) ->
            Gf3258RegistrationMapScores,
        A: Fn(usize, i32, i32) -> bool,
        I: Fn(Gf3258AffineQ8) -> Gf3258AffineQ8,
        C: Fn(Gf3258AffineQ8, Gf3258AffineQ8) -> Gf3258AffineQ8,
        N: Fn(&[u8; 160], &[Gf3258AffineQ8]) -> i32,

        requires
            old(self).wf(),
            engine.deterministic(),
        ensures
            final(self).wf(),
            ({
                let (state, outcome) = added(
                    old(self).state(),
                    engine.model(),
                    points@,
                    graph_sample,
                    None,
                    graph_score_threshold,
                );
                final(self).state() == state && reports(result, outcome, state.graph)
            }),
    {
        self.add_sample_with_optional_persistence(
            points,
            graph_sample,
            None,
            graph_score_threshold,
            engine,
        )
    }

    /// Adds a sample together with what is stored of it.
    pub fn add_persistent_sample<R, S, A, I, C, N>(
        &mut self,
        points: Vec<Gf3258RegistrationPoint>,
        graph_sample: Gf3258EnrollmentSample,
        persistent_sample: Gf3258PersistentSampleState,
        graph_score_threshold: i32,
        engine: &Gf3258RegistrationEngine<R, S, A, I, C, N>,
    ) -> (result: Result<Gf3258EnrollmentAddResult, Gf3258EnrollmentAddError>) where
        R: Fn(&[Gf3258RegistrationPoint], &[Gf3258RegistrationPoint]) -> Option<
            Gf3258PointRegistration,
        >,
        S: Fn(&[Gf3258EnrollmentSample], usize, usize, Gf3258AffineQ8) ->
            Gf3258RegistrationMapScores,
        A: Fn(usize, i32, i32) -> bool,
        I: Fn(Gf3258AffineQ8) -> Gf3258AffineQ8,
        C: Fn(Gf3258AffineQ8, Gf3258AffineQ8) -> Gf3258AffineQ8,
        N: Fn(&[u8; 160], &[Gf3258AffineQ8]) -> i32,

        requires
            old(self).wf(),
            engine.deterministic(),
        ensures
            final(self).wf(),
            ({
                let (state, outcome) = added(
                    old(self).state(),
                    engine.model(),
                    points@,
                    graph_sample,
                    Some(persistent_sample),
                    graph_score_threshold,
                );
                final(self).state() == state && reports(result, outcome, state.graph)
            }),
    {
        self.add_sample_with_optional_persistence(
            points,
            graph_sample,
            Some(persistent_sample),
            graph_score_threshold,
            engine,
        )
    }

    /// Adds a sample: the first one is only kept; every other one is registered
    /// against all earlier ones, the accepted relations are stored, and the
    /// graph takes the sample in if there are any. A full template is left as it
    /// is.
    fn add_sample_with_optional_persistence<R, S, A, I, C, N>(
        &mut self,
        points: Vec<Gf3258RegistrationPoint>,
        graph_sample: Gf3258EnrollmentSample,
        persistent_sample: Option<Gf3258PersistentSampleState>,
        graph_score_threshold: i32,
        engine: &Gf3258RegistrationEngine<R, S, A, I, C, N>,
    ) -> (result: Result<Gf3258EnrollmentAddResult, Gf3258EnrollmentAddError>) where
        R: Fn(&[Gf3258RegistrationPoint], &[Gf3258RegistrationPoint]) -> Option<
            Gf3258PointRegistration,
        >,
        S: Fn(&[Gf3258EnrollmentSample], usize, usize, Gf3258AffineQ8) ->
            Gf3258RegistrationMapScores,
        A: Fn(usize, i32, i32) -> bool,
        I: Fn(Gf3258AffineQ8) -> Gf3258AffineQ8,
        C: Fn(Gf3258AffineQ8, Gf3258AffineQ8) -> Gf3258AffineQ8,
        N: Fn(&[u8; 160], &[Gf3258AffineQ8]) -> i32,

        requires
            old(self).wf(),
            engine.deterministic(),
        ensures
            final(self).wf(),
            ({
                let (state, outcome) = added(
                    old(self).state(),
                    engine.model(),
                    points@,
                    graph_sample,
                    persistent_sample,
                    graph_score_threshold,
                );
                final(self).state() == state && reports(result, outcome, state.graph)
            }),
    {
        if self.sample_count() >= self.configured_max_samples {
            return Err(
                Gf3258EnrollmentAddError::CapacityReached {
                    capacity: self.configured_max_samples,
                },
            );
        }
        let ghost start = self.state();
        let ghost m = engine.model();
        let ghost grown = with_sample(start, points@, graph_sample, persistent_sample);
        let current: usize = self.point_sets.len();
        let relation_checkpoint: i32 = self.relation_table_cursor() as i32;
        let retained_sample: Option<Gf3258PersistentSampleState> = match persistent_sample {
            Some(sample) => {
                let mut kept: Gf3258PersistentSampleState = sample;
                kept.relation_checkpoint = relation_checkpoint;
                kept.sample_index = current as i32;
                kept.canonical_member = false;
                Some(kept)
            },
            None => None,
        };
        self.point_sets.push(points);
        self.persistent_samples.push(retained_sample);
        self.graph.push_sample(graph_sample);
        proof {
            assert(point_views(self.point_sets@) =~= grown.points);
            assert(self.persistent_samples@ =~= grown.persistent);
            assert(self.state() == grown);
        }
        if current == 0 {
            sync_flags(&mut self.persistent_samples, &self.graph.samples);
            let result: Gf3258EnrollmentAddResult = Gf3258EnrollmentAddResult {
                kind: Gf3258EnrollmentAddKind::FirstSample,
                current_index: current,
                successful_previous: Vec::new(),
                attempts: Vec::new(),
                graph_integration: None,
            };
            assert(result.successful_previous@ =~= Seq::empty());
            assert(result.attempts@ =~= Seq::empty());
            return Ok(result);
        }
        let ghost all = attempts_of(m, grown.points, grown.graph.samples);
        let mut successful_previous: Vec<usize> = Vec::new();
        let mut attempts: Vec<Gf3258PreviousRegistrationAttempt> = Vec::with_capacity(current);
        assert(successful_previous@ =~= accepted_previous(all, 0));
        for previous in 0..current
            invariant
                engine.deterministic(),
                m == engine.model(),
                all == attempts_of(m, grown.points, grown.graph.samples),
                all.len() == current,
                grown.points.len() == current + 1,
                self.point_sets@.len() == current + 1,
                point_views(self.point_sets@) == grown.points,
                self.graph.wf(),
                self.state() == (TemplateState {
                    graph: GraphState {
                        rows: with_accepted_edges(
                            grown.graph.rows,
                            m.inverse,
                            current as int,
                            all,
                            previous as nat,
                        ),
                        ..grown.graph
                    },
                    ..grown
                }),
                attempts@.len() == previous,
                forall|p: int| 0 <= p < previous ==> #[trigger] attempts@[p] == all[p],
                successful_previous@ == accepted_previous(all, previous as nat),
        {
            let attempt: Gf3258PreviousRegistrationAttempt = attempt_registration(
                &self.point_sets,
                &self.graph.samples,
                previous,
                engine,
            );
            assert(attempt == all[previous as int]);
            attempts.push(attempt);
            if attempt.accepted {
                self.graph.set_relation_source_to_target(
                    current,
                    previous,
                    attempt.geometric_inliers as i32,
                    attempt.transform_current_to_previous.unwrap(),
                    &engine.transforms,
                );
                successful_previous.push(previous);
            }
        }
        assert(attempts@ =~= all);
        let ghost registered = self.state();
        if successful_previous.len() == 0 {
            sync_flags(&mut self.persistent_samples, &self.graph.samples);
            return Ok(
                Gf3258EnrollmentAddResult {
                    kind: Gf3258EnrollmentAddKind::NoSuccessfulPrevious,
                    current_index: current,
                    successful_previous,
                    attempts,
                    graph_integration: None,
                },
            );
        }
        let score_samples: Vec<Gf3258EnrollmentSample> = copied_samples(&self.graph.samples);
        let score_pair = |source: usize, target: usize, t: Gf3258AffineQ8| -> (r: i32)
            ensures
                r == (m.score)(score_samples@, source, target, t).score,
            {
                let list: &[Gf3258EnrollmentSample] = score_samples.as_slice();
                let scores: Gf3258RegistrationMapScores = (engine.score)(list, source, target, t);
                proof {
                    engine.lemma_scored(list, source, target, t, scores);
                }
                scores.score
            };
        let ghost gm = graph_model(m, registered.graph.samples);
        let integration: Result<Gf3258EnrollmentIntegrationResult, Gf3258EnrollmentGraphError> =
            enrollment_graph::integrate_modelled(
            &mut self.graph,
            current,
            successful_previous.as_slice(),
            graph_score_threshold,
            &engine.transforms,
            &score_pair,
            Ghost(gm),
        );
        proof {
            enrollment_graph::lemma_integration_only_adds_members(
                registered.graph,
                gm,
                current,
                successful_previous@,
                graph_score_threshold,
            );
        }
        match integration {
            Ok(graph_integration) => {
                sync_flags(&mut self.persistent_samples, &self.graph.samples);
                Ok(
                    Gf3258EnrollmentAddResult {
                        kind: Gf3258EnrollmentAddKind::Integrated,
                        current_index: current,
                        successful_previous,
                        attempts,
                        graph_integration: Some(graph_integration),
                    },
                )
            },
            Err(error) => Err(Gf3258EnrollmentAddError::Graph(error)),
        }
    }
}

fn copied_samples(samples: &Vec<Gf3258EnrollmentSample>) -> (copy: Vec<Gf3258EnrollmentSample>)
    ensures
        copy@ == samples@,
{
    let mut copy: Vec<Gf3258EnrollmentSample> = Vec::with_capacity(samples.len());
    for i in 0..samples.len()
        invariant
            copy@.len() == i,
            forall|j: int| 0 <= j < i ==> #[trigger] copy@[j] == samples@[j],
    {
        copy.push(samples[i]);
    }
    assert(copy@ =~= samples@);
    copy
}

/// From one sample on, every further sample advances the relation table by one
/// record per earlier sample.
pub proof fn lemma_cursor_step(sample_count: int)
    requires
        sample_count >= 1,
    ensures
        table_cursor(sample_count + 1) == table_cursor(sample_count) + sample_count,
        table_cursor(1) == table_cursor(0) + 1,
{
    let n = sample_count;
    assert((n + 1) * n == n * (n - 1) + 2 * n) by (nonlinear_arith);
    assert((n * (n - 1) + 2 * n) / 2 == n * (n - 1) / 2 + n);
}

/// An attempt against an earlier sample registers the earlier sample's points with
/// the newest ones. It is accepted exactly if they register with five inliers or
/// more and the metrics of the transform, from the newest to the earlier sample,
/// are accepted for that number; and it has a reason exactly if it is not.
pub proof fn lemma_attempt(
    m: EngineModel,
    points: Seq<Seq<Gf3258RegistrationPoint>>,
    samples: Seq<Gf3258EnrollmentSample>,
    previous: int,
)
    requires
        0 <= previous < points.len() - 1,
        points.len() <= usize::MAX,
    ensures
        ({
            let attempt = attempt_of(m, points, samples, previous);
            let found = (m.register)(points[previous], points.last());
            let newest = (points.len() - 1) as usize;
            &&& attempt.previous_index == previous
            &&& attempt.accepted == (found is Some && found->Some_0.inlier_count >= 5 && {
                let scores = (m.score)(
                    samples,
                    newest,
                    previous as usize,
                    found->Some_0.transform,
                );
                (m.accepts)(found->Some_0.inlier_count, scores.metric_a, scores.metric_b)
            })
            &&& attempt.accepted == (attempt.reject_reason is None)
            &&& attempt.transform_current_to_previous == (match found {
                Some(registration) => Some(registration.transform),
                None => None,
            })
            &&& found is Some ==> attempt.geometric_inliers == found->Some_0.inlier_count
            &&& attempt.map_scores is Some == (found is Some && found->Some_0.inlier_count >= 5)
        }),
{
}

/// The relations that attempts leave: an accepted one is recorded under the newest
/// and the earlier sample with its inliers and its transform, and no other record
/// changes.
pub proof fn lemma_accepted_edges(
    rows: Seq<Seq<registration::Gf3258PairRelation>>,
    inverse: spec_fn(Gf3258AffineQ8) -> Gf3258AffineQ8,
    current: int,
    attempts: Seq<Gf3258PreviousRegistrationAttempt>,
    n: nat,
)
    requires
        registration::is_triangular(rows),
        n <= current < rows.len(),
        n <= attempts.len(),
    ensures
        ({
            let after = with_accepted_edges(rows, inverse, current, attempts, n);
            &&& after.len() == rows.len()
            &&& registration::is_triangular(after)
            &&& forall|x: int, y: int|
                0 <= y < x < rows.len() ==> #[trigger] after[x][y] == (if x == current && y < n
                    && attempts[y].accepted {
                    registration::Gf3258PairRelation {
                        relation_value: attempts[y].geometric_inliers as i32,
                        transform_higher_to_lower: attempts[y].transform_current_to_previous->Some_0,
                    }
                } else {
                    rows[x][y]
                })
        }),
    decreases n,
{
    if n > 0 {
        lemma_accepted_edges(rows, inverse, current, attempts, (n - 1) as nat);
        let before = with_accepted_edges(rows, inverse, current, attempts, (n - 1) as nat);
        let after = with_accepted_edges(rows, inverse, current, attempts, n);
        assert(before[current].len() == current);
        assert forall|x: int| 0 <= x < after.len() implies (#[trigger] after[x]).len() == x by {
            assert(before[x].len() == x);
        }
        assert forall|x: int, y: int| 0 <= y < x < rows.len() implies #[trigger] after[x][y] == (if x
            == current && y < n && attempts[y].accepted {
            registration::Gf3258PairRelation {
                relation_value: attempts[y].geometric_inliers as i32,
                transform_higher_to_lower: attempts[y].transform_current_to_previous->Some_0,
            }
        } else {
            rows[x][y]
        }) by {
            assert(before[x].len() == x);
            assert(before[x][y] == before[x][y]);
        }
    }
}

/// The successful earlier samples are those whose attempt was accepted, each once
/// and in ascending order.
pub proof fn lemma_successful_previous(
    attempts: Seq<Gf3258PreviousRegistrationAttempt>,
    n: nat,
)
    requires
        n <= attempts.len() <= usize::MAX,
    ensures
        ({
            let list = accepted_previous(attempts, n);
            &&& forall|p: int|
                0 <= p < n ==> (list.contains(p as usize) <==> (#[trigger] attempts[p]).accepted)
            &&& forall|k: int| 0 <= k < list.len() ==> (#[trigger] list[k]) < n
            &&& forall|j: int, k: int| 0 <= j < k < list.len() ==> list[j] < list[k]
        }),
    decreases n,
{
    if n > 0 {
        lemma_successful_previous(attempts, (n - 1) as nat);
        let before = accepted_previous(attempts, (n - 1) as nat);
        let list = accepted_previous(attempts, n);
        assert forall|p: int| 0 <= p < n implies (list.contains(p as usize) <==> (
        #[trigger] attempts[p]).accepted) by {
            if p < n - 1 {
                if before.contains(p as usize) {
                    let k = choose|k: int| 0 <= k < before.len() && before[k] == p as usize;
                    assert(list[k] == p as usize);
                }
                if list.contains(p as usize) {
                    let k = choose|k: int| 0 <= k < list.len() && list[k] == p as usize;
                    assert(k < before.len());
                    assert(before[k] == p as usize);
                }
            } else if attempts[p].accepted {
                assert(list[before.len() as int] == p as usize);
            } else if list.contains(p as usize) {
                let k = choose|k: int| 0 <= k < list.len() && list[k] == p as usize;
                assert(before[k] < n - 1);
            }
        }
    }
}

/// A template that is not full keeps the new sample whatever becomes of its
/// registration, keeps the points of all earlier samples, and loses no canonical
/// member. A full one stays as it is.
pub proof fn lemma_added_sample_is_kept(
    t: TemplateState,
    m: EngineModel,
    points: Seq<Gf3258RegistrationPoint>,
    sample: Gf3258EnrollmentSample,
    persistent: Option<Gf3258PersistentSampleState>,
    graph_score_threshold: i32,
)
    requires
        t.graph.samples.len() == t.points.len(),
        t.points.len() <= usize::MAX,
    ensures
        ({
            let (state, outcome) = added(t, m, points, sample, persistent, graph_score_threshold);
            if t.points.len() >= t.configured_max_samples {
                state == t && outcome is Err
            } else {
                &&& state.points == t.points.push(points)
                &&& state.graph.samples.len() == t.graph.samples.len() + 1
                &&& forall|i: int|
                    0 <= i < t.graph.samples.len() && t.graph.samples[i].canonical_member
                        ==> #[trigger] state.graph.samples[i].canonical_member
            }
        }),
{
    if t.points.len() < t.configured_max_samples && t.points.len() > 0 {
        let current = t.points.len() as usize;
        let grown = with_sample(t, points, sample, persistent);
        let attempts = attempts_of(m, grown.points, grown.graph.samples);
        let successful = accepted_previous(attempts, attempts.len());
        let registered = GraphState {
            rows: with_accepted_edges(
                grown.graph.rows,
                m.inverse,
                current as int,
                attempts,
                attempts.len(),
            ),
            ..grown.graph
        };
        enrollment_graph::lemma_integration_only_adds_members(
            registered,
            graph_model(m, registered.samples),
            current,
            successful,
            graph_score_threshold,
        );
        let (graph, outcome) = enrollment_graph::integrated(
            registered,
            graph_model(m, registered.samples),
            current,
            successful,
            graph_score_threshold,
        );
        assert forall|i: int|
            0 <= i < t.graph.samples.len()
                && t.graph.samples[i].canonical_member implies graph.samples[i].canonical_member by {
            assert(registered.samples[i] == t.graph.samples[i]);
        }
    }
}

/// After a successful addition the stored samples have the canonical flags of
/// the graph.
pub proof fn lemma_added_flags_agree(
    t: TemplateState,
    m: EngineModel,
    points: Seq<Gf3258RegistrationPoint>,
    sample: Gf3258EnrollmentSample,
    persistent: Option<Gf3258PersistentSampleState>,
    graph_score_threshold: i32,
)
    requires
        t.graph.samples.len() == t.points.len(),
        t.persistent.len() == t.points.len(),
        t.points.len() <= usize::MAX,
    ensures
        ({
            let (state, outcome) = added(t, m, points, sample, persistent, graph_score_threshold);
            outcome is Ok ==> forall|i: int|
                0 <= i < state.persistent.len() && (#[trigger] state.persistent[i]) is Some
                    ==> state.persistent[i]->Some_0.canonical_member
                    == state.graph.samples[i].canonical_member
        }),
{
    lemma_added_sample_is_kept(t, m, points, sample, persistent, graph_score_threshold);
}

impl Gf3258EnrollmentAddError {
    pub open spec fn debug_text_spec(&self) -> Seq<char> {
        match self {
            Gf3258EnrollmentAddError::CapacityReached { capacity } => {
                "CapacityReached { capacity: "@ + text::decimal(*capacity as nat) + " }"@
            },
            Gf3258EnrollmentAddError::Graph(error) => "Graph("@ + error.debug_text_spec() + ")"@,
        }
    }

    /// Name and fields of this error.
    pub fn debug_text(&self) -> (text: String)
        ensures
            text@ == self.debug_text_spec(),
    {
        match self {
            Gf3258EnrollmentAddError::CapacityReached { capacity } => {
                let mut out: String = "CapacityReached { capacity: ".to_owned();
                text::push_decimal(&mut out, *capacity as u64);
                out.append(" }");
                out
            },
            Gf3258EnrollmentAddError::Graph(error) => {
                let mut out: String = "Graph(".to_owned();
                out.append(error.debug_text().as_str());
                out.append(")");
                out
            },
        }
    }
}

} // verus!
