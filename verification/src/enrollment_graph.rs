//! Enrollment graph: which samples belong to the canonical component, how they
//! relate to each other, and how a new sample joins.
use vstd::prelude::*;

use crate::registration;
use crate::registration::{
    Gf3258AffineQ8, Gf3258PairRelation, Gf3258PairRelationTable, Gf3258TransformOps,
    GF3258_REGISTRATION_SCORE_WEAK,
};
use crate::text;

verus! {

/// What the graph keeps of one sample.
#[derive(Debug, Clone, Copy, PartialEq, Eq)]
pub struct Gf3258EnrollmentSample {
    pub canonical_member: bool,
    /// Status five keeps a sample out of the coverage.
    pub status: i32,
    pub primary_registration_map: [u8; 160],
    pub secondary_registration_map: Option<[u8; 160]>,
    pub packed_validity: [u8; 160],
}

impl Default for Gf3258EnrollmentSample {
    fn default() -> (sample: Self)
        ensures
            !sample.canonical_member,
            sample.status == 0,
            sample.primary_registration_map@ == Seq::new(160, |i: int| 0u8),
            sample.secondary_registration_map is None,
            sample.packed_validity@ == Seq::new(160, |i: int| 0u8),
    {
        let zeros: [u8; 160] = [0u8;160];
        assert(zeros@ =~= Seq::new(160, |i: int| 0u8));
        Gf3258EnrollmentSample {
            canonical_member: false,
            status: 0,
            primary_registration_map: zeros,
            secondary_registration_map: None,
            packed_validity: zeros,
        }
    }
}

/// The samples of a template and their relations.
#[derive(Debug, Clone, PartialEq, Eq)]
pub struct Gf3258EnrollmentGraph {
    pub samples: Vec<Gf3258EnrollmentSample>,
    pub relations: Gf3258PairRelationTable,
    /// Meaningful once a canonical component is established.
    pub canonical_anchor: usize,
    pub canonical_established: bool,
}

/// Contents of a graph.
pub struct GraphState {
    pub samples: Seq<Gf3258EnrollmentSample>,
    pub rows: Seq<Seq<Gf3258PairRelation>>,
    pub anchor: usize,
    pub established: bool,
}

/// The operations a graph is built on, as functions.
pub struct GraphModel {
    pub inverse: spec_fn(Gf3258AffineQ8) -> Gf3258AffineQ8,
    pub compose: spec_fn(Gf3258AffineQ8, Gf3258AffineQ8) -> Gf3258AffineQ8,
    pub novelty: spec_fn([u8; 160], Seq<Gf3258AffineQ8>) -> i32,
    pub score: spec_fn(usize, usize, Gf3258AffineQ8) -> i32,
}

#[derive(Debug, Clone, PartialEq, Eq)]
pub enum Gf3258EnrollmentGraphError {
    CurrentIsNotNewest { current: usize, sample_count: usize },
    PreviousIndexOutOfRange { index: usize, current: usize },
    MissingDirectRelation { current: usize, previous: usize },
    MissingCanonicalTransform { sample: usize, anchor: usize },
}

#[derive(Debug, Clone, PartialEq, Eq)]
pub struct Gf3258EnrollmentIntegrationResult {
    pub current_index: usize,
    pub canonical_anchor: Option<usize>,
    pub current_is_canonical: bool,
    /// Samples that joined the component in this call, without the current one.
    pub promoted_samples: Vec<usize>,
    pub novel_coverage: i32,
}

/// Value and transform of the edge from `source` to `target`.
pub open spec fn edge(
    rows: Seq<Seq<Gf3258PairRelation>>,
    inverse: spec_fn(Gf3258AffineQ8) -> Gf3258AffineQ8,
    source: int,
    target: int,
) -> Option<(i32, Gf3258AffineQ8)> {
    match registration::table_record(rows, source, target) {
        Some(record) => Some(
            (
                record.relation_value,
                if source > target {
                    record.transform_higher_to_lower
                } else {
                    inverse(record.transform_higher_to_lower)
                },
            ),
        ),
        None => None,
    }
}

/// The rows after storing the edge from `source` to `target`.
pub open spec fn with_edge(
    rows: Seq<Seq<Gf3258PairRelation>>,
    inverse: spec_fn(Gf3258AffineQ8) -> Gf3258AffineQ8,
    source: int,
    target: int,
    value: i32,
    t: Gf3258AffineQ8,
) -> Seq<Seq<Gf3258PairRelation>> {
    registration::with_record(
        rows,
        source,
        target,
        Gf3258PairRelation {
            relation_value: value,
            transform_higher_to_lower: if source > target {
                t
            } else {
                inverse(t)
            },
        },
    )
}

/// Transform from a canonical sample to the anchor.
pub open spec fn to_anchor(g: GraphState, m: GraphModel, sample: int) -> Option<Gf3258AffineQ8> {
    if !g.established || sample >= g.samples.len() {
        None
    } else if sample == g.anchor {
        Some(Gf3258AffineQ8::identity_spec())
    } else if !g.samples[sample].canonical_member {
        None
    } else {
        match edge(g.rows, m.inverse, sample, g.anchor as int) {
            Some((value, t)) => if value >= 0 {
                Some(t)
            } else {
                None
            },
            None => None,
        }
    }
}

/// The graph with one sample made canonical.
pub open spec fn with_member(g: GraphState, sample: int) -> GraphState {
    GraphState {
        samples: g.samples.update(
            sample,
            Gf3258EnrollmentSample { canonical_member: true, ..g.samples[sample] },
        ),
        ..g
    }
}

/// The graph with a sample made canonical and its transform to the anchor
/// stored under the given value.
pub open spec fn with_anchored(
    g: GraphState,
    m: GraphModel,
    sample: int,
    value: i32,
    t: Gf3258AffineQ8,
) -> GraphState {
    let joined = with_member(g, sample);
    if sample == g.anchor {
        joined
    } else {
        GraphState {
            rows: with_edge(joined.rows, m.inverse, sample, g.anchor as int, value, t),
            ..joined
        }
    }
}

/// The value that the current sample's link to the anchor keeps: an existing
/// edge keeps its value, a new one gets zero.
pub open spec fn kept_value(g: GraphState, sample: int) -> i32 {
    match registration::table_record(g.rows, sample, g.anchor as int) {
        Some(record) => if record.relation_value < 0 {
            0
        } else {
            record.relation_value
        },
        None => 0,
    }
}

/// The first bad entry among the first `n` successful samples.
pub open spec fn list_error(g: GraphState, current: usize, list: Seq<usize>, n: nat) -> Option<
    Gf3258EnrollmentGraphError,
>
    decreases n,
{
    if n == 0 {
        None
    } else {
        match list_error(g, current, list, (n - 1) as nat) {
            Some(error) => Some(error),
            None => if list[n - 1] >= current {
                Some(
                    Gf3258EnrollmentGraphError::PreviousIndexOutOfRange {
                        index: list[n - 1],
                        current,
                    },
                )
            } else if registration::table_record(
                g.rows,
                current as int,
                list[n - 1] as int,
            ) is None {
                Some(
                    Gf3258EnrollmentGraphError::MissingDirectRelation {
                        current,
                        previous: list[n - 1],
                    },
                )
            } else {
                None
            },
        }
    }
}

/// Strongest edge from the current sample among the first `n` listed ones, the
/// later of equal ones; where asked, only canonical samples count.
pub open spec fn strongest(
    g: GraphState,
    m: GraphModel,
    current: usize,
    list: Seq<usize>,
    canonical_only: bool,
    n: nat,
) -> Option<(usize, i32, Gf3258AffineQ8)>
    decreases n,
{
    if n == 0 {
        None
    } else {
        let best = strongest(g, m, current, list, canonical_only, (n - 1) as nat);
        let index = list[n - 1];
        if canonical_only && !g.samples[index as int].canonical_member {
            best
        } else {
            match edge(g.rows, m.inverse, current as int, index as int) {
                Some((value, t)) => match best {
                    Some((_, best_value, _)) => if value >= best_value {
                        Some((index, value, t))
                    } else {
                        best
                    },
                    None => Some((index, value, t)),
                },
                None => best,
            }
        }
    }
}

/// Attaches the current sample to an existing component through its strongest
/// canonical partner.
pub open spec fn attached(g: GraphState, m: GraphModel, current: usize, list: Seq<usize>) -> (
    GraphState,
    Option<Gf3258EnrollmentGraphError>,
) {
    if !g.established {
        (g, None)
    } else {
        match strongest(g, m, current, list, true, list.len()) {
            Some((through, _, current_to_through)) => match to_anchor(g, m, through as int) {
                Some(through_to_anchor) => (
                    with_anchored(
                        g,
                        m,
                        current as int,
                        kept_value(g, current as int),
                        (m.compose)(through_to_anchor, current_to_through),
                    ),
                    None,
                ),
                None => (
                    g,
                    Some(
                        Gf3258EnrollmentGraphError::MissingCanonicalTransform {
                            sample: through,
                            anchor: g.anchor,
                        },
                    ),
                ),
            },
            None => (g, None),
        }
    }
}

/// Founds a component on the strongest direct relation, where its value exceeds
/// five and its score exceeds the threshold.
pub open spec fn founded(
    g: GraphState,
    m: GraphModel,
    current: usize,
    list: Seq<usize>,
    score_threshold: i32,
) -> GraphState {
    if g.established {
        g
    } else {
        match strongest(g, m, current, list, false, list.len()) {
            Some((anchor, value, current_to_anchor)) => if value > 5 && (m.score)(
                current,
                anchor,
                current_to_anchor,
            ) > score_threshold {
                let joined = with_member(with_member(g, anchor as int), current as int);
                GraphState {
                    samples: joined.samples,
                    rows: with_edge(
                        g.rows,
                        m.inverse,
                        current as int,
                        anchor as int,
                        value,
                        current_to_anchor,
                    ),
                    anchor,
                    established: true,
                }
            } else {
                g
            },
            None => g,
        }
    }
}

/// Promotes the first `n` listed samples that are still outside the component
/// and score at least the weak score; also gives the promoted ones in order.
pub open spec fn promoted_directly(
    g: GraphState,
    m: GraphModel,
    current: usize,
    list: Seq<usize>,
    current_to_anchor: Gf3258AffineQ8,
    n: nat,
) -> (GraphState, Seq<usize>)
    decreases n,
{
    if n == 0 {
        (g, Seq::empty())
    } else {
        let before = promoted_directly(g, m, current, list, current_to_anchor, (n - 1) as nat);
        let state = before.0;
        let previous = list[n - 1];
        match edge(state.rows, m.inverse, current as int, previous as int) {
            Some((value, current_to_previous)) => {
                if !state.samples[previous as int].canonical_member && value >= 0 && (m.score)(
                    current,
                    previous,
                    current_to_previous,
                ) >= GF3258_REGISTRATION_SCORE_WEAK {
                    (
                        with_anchored(
                            state,
                            m,
                            previous as int,
                            0,
                            (m.compose)(current_to_anchor, (m.inverse)(current_to_previous)),
                        ),
                        before.1.push(previous),
                    )
                } else {
                    before
                }
            },
            None => before,
        }
    }
}

/// Promotes the samples below `n` that have an edge to `through` whose score
/// exceeds the threshold, and appends them to the queue.
pub open spec fn promoted_through(
    g: GraphState,
    m: GraphModel,
    through: usize,
    through_to_anchor: Gf3258AffineQ8,
    score_threshold: i32,
    queue: Seq<usize>,
    n: nat,
) -> (GraphState, Seq<usize>)
    decreases n,
{
    if n == 0 {
        (g, queue)
    } else {
        let before = promoted_through(
            g,
            m,
            through,
            through_to_anchor,
            score_threshold,
            queue,
            (n - 1) as nat,
        );
        let state = before.0;
        let candidate = (n - 1) as usize;
        match edge(state.rows, m.inverse, candidate as int, through as int) {
            Some((value, candidate_to_through)) => {
                if !state.samples[candidate as int].canonical_member && value >= 0 && (m.score)(
                    candidate,
                    through,
                    candidate_to_through,
                ) > score_threshold {
                    (
                        with_anchored(
                            state,
                            m,
                            candidate as int,
                            0,
                            (m.compose)(through_to_anchor, candidate_to_through),
                        ),
                        before.1.push(candidate),
                    )
                } else {
                    before
                }
            },
            None => before,
        }
    }
}

/// Number of samples below `n` outside the component.
pub open spec fn outside_count(samples: Seq<Gf3258EnrollmentSample>, n: nat) -> nat
    decreases n,
{
    if n == 0 {
        0
    } else {
        outside_count(samples, (n - 1) as nat) + (if samples[n - 1].canonical_member {
            0nat
        } else {
            1nat
        })
    }
}

/// Making an outside sample canonical lowers the count by one.
proof fn lemma_join_lowers_outside(samples: Seq<Gf3258EnrollmentSample>, i: int, n: nat)
    requires
        0 <= i < n <= samples.len(),
        !samples[i].canonical_member,
    ensures
        outside_count(
            samples.update(i, Gf3258EnrollmentSample { canonical_member: true, ..samples[i] }),
            n,
        ) == outside_count(samples, n) - 1,
        outside_count(samples, n) >= 1,
    decreases n,
{
    let after = samples.update(
        i,
        Gf3258EnrollmentSample { canonical_member: true, ..samples[i] },
    );
    if i < n - 1 {
        lemma_join_lowers_outside(samples, i, (n - 1) as nat);
    } else {
        lemma_outside_frame(samples, after, (n - 1) as nat);
    }
}

proof fn lemma_outside_frame(
    a: Seq<Gf3258EnrollmentSample>,
    b: Seq<Gf3258EnrollmentSample>,
    n: nat,
)
    requires
        forall|i: int| 0 <= i < n ==> (#[trigger] a[i]).canonical_member == b[i].canonical_member,
    ensures
        outside_count(a, n) == outside_count(b, n),
    decreases n,
{
    if n > 0 {
        lemma_outside_frame(a, b, (n - 1) as nat);
        assert(a[n - 1].canonical_member == b[n - 1].canonical_member);
    }
}

/// Every promotion takes one sample out of the outside and into the queue.
pub proof fn lemma_promoted_through(
    g: GraphState,
    m: GraphModel,
    through: usize,
    through_to_anchor: Gf3258AffineQ8,
    score_threshold: i32,
    queue: Seq<usize>,
    n: nat,
    bound: nat,
)
    requires
        n <= bound <= g.samples.len(),
        bound <= usize::MAX,
    ensures
        ({
            let after = promoted_through(
                g,
                m,
                through,
                through_to_anchor,
                score_threshold,
                queue,
                n,
            );
            &&& after.0.samples.len() == g.samples.len()
            &&& outside_count(after.0.samples, bound) + after.1.len() == outside_count(
                g.samples,
                bound,
            ) + queue.len()
            &&& queue.len() <= after.1.len()
        }),
    decreases n,
{
    if n > 0 {
        lemma_promoted_through(
            g,
            m,
            through,
            through_to_anchor,
            score_threshold,
            queue,
            (n - 1) as nat,
            bound,
        );
        let before = promoted_through(
            g,
            m,
            through,
            through_to_anchor,
            score_threshold,
            queue,
            (n - 1) as nat,
        );
        if !before.0.samples[n - 1].canonical_member {
            lemma_join_lowers_outside(before.0.samples, n - 1, bound);
        }
    }
}

/// Takes the queued samples one after another, from position `at` on, and
/// promotes what is connected to them.
pub open spec fn closed_over(
    g: GraphState,
    m: GraphModel,
    current: usize,
    score_threshold: i32,
    queue: Seq<usize>,
    at: nat,
) -> (GraphState, Seq<usize>, Option<Gf3258EnrollmentGraphError>)
    decreases
            (if at < queue.len() && current <= g.samples.len() {
                outside_count(g.samples, current as nat) + queue.len() - at
            } else {
                0
            }),
{
    if at >= queue.len() || current > g.samples.len() {
        (g, queue, None)
    } else {
        match to_anchor(g, m, queue[at as int] as int) {
            Some(through_to_anchor) => {
                let after = promoted_through(
                    g,
                    m,
                    queue[at as int],
                    through_to_anchor,
                    score_threshold,
                    queue,
                    current as nat,
                );
                proof {
                    lemma_promoted_through(
                        g,
                        m,
                        queue[at as int],
                        through_to_anchor,
                        score_threshold,
                        queue,
                        current as nat,
                        current as nat,
                    );
                }
                closed_over(after.0, m, current, score_threshold, after.1, at + 1)
            },
            None => (
                g,
                queue,
                Some(
                    Gf3258EnrollmentGraphError::MissingCanonicalTransform {
                        sample: queue[at as int],
                        anchor: g.anchor,
                    },
                ),
            ),
        }
    }
}

/// Promotion of everything that the current sample brings in.
pub open spec fn promoted(
    g: GraphState,
    m: GraphModel,
    current: usize,
    list: Seq<usize>,
    score_threshold: i32,
) -> (GraphState, Seq<usize>, Option<Gf3258EnrollmentGraphError>) {
    if g.established && g.samples[current as int].canonical_member {
        match to_anchor(g, m, current as int) {
            Some(current_to_anchor) => {
                let direct = promoted_directly(g, m, current, list, current_to_anchor, list.len());
                closed_over(direct.0, m, current, score_threshold, direct.1, 0)
            },
            None => (
                g,
                Seq::empty(),
                Some(
                    Gf3258EnrollmentGraphError::MissingCanonicalTransform {
                        sample: current,
                        anchor: g.anchor,
                    },
                ),
            ),
        }
    } else {
        (g, Seq::empty(), None)
    }
}

/// Transforms from the current sample to the canonical samples below `n` whose
/// status is not five, each by way of the anchor.
pub open spec fn transforms_to_others(
    g: GraphState,
    m: GraphModel,
    current_to_anchor: Gf3258AffineQ8,
    n: nat,
) -> Result<Seq<Gf3258AffineQ8>, Gf3258EnrollmentGraphError>
    decreases n,
{
    if n == 0 {
        Ok(Seq::empty())
    } else {
        let other = n - 1;
        match transforms_to_others(g, m, current_to_anchor, (n - 1) as nat) {
            Err(error) => Err(error),
            Ok(list) => if !g.samples[other].canonical_member || g.samples[other].status == 5 {
                Ok(list)
            } else if other == g.anchor {
                Ok(list.push(current_to_anchor))
            } else {
                match to_anchor(g, m, other) {
                    Some(other_to_anchor) => Ok(
                        list.push((m.compose)((m.inverse)(other_to_anchor), current_to_anchor)),
                    ),
                    None => Err(
                        Gf3258EnrollmentGraphError::MissingCanonicalTransform {
                            sample: other as usize,
                            anchor: g.anchor,
                        },
                    ),
                }
            },
        }
    }
}

/// Novel coverage of the current sample.
pub open spec fn coverage(g: GraphState, m: GraphModel, current: usize) -> Result<
    i32,
    Gf3258EnrollmentGraphError,
> {
    if g.established && g.samples[current as int].canonical_member {
        match to_anchor(g, m, current as int) {
            Some(current_to_anchor) => match transforms_to_others(
                g,
                m,
                current_to_anchor,
                current as nat,
            ) {
                Ok(list) => Ok((m.novelty)(g.samples[current as int].packed_validity, list)),
                Err(error) => Err(error),
            },
            None => Err(
                Gf3258EnrollmentGraphError::MissingCanonicalTransform {
                    sample: current,
                    anchor: g.anchor,
                },
            ),
        }
    } else {
        Ok(0)
    }
}

/// Outcome of an integration: the promoted samples and the novel coverage.
pub type IntegrationOutcome = Result<(Seq<usize>, i32), Gf3258EnrollmentGraphError>;

/// The graph after integrating the newest sample, and the outcome.
pub open spec fn integrated(
    g: GraphState,
    m: GraphModel,
    current: usize,
    list: Seq<usize>,
    score_threshold: i32,
) -> (GraphState, IntegrationOutcome) {
    if current + 1 != g.samples.len() {
        (
            g,
            Err(
                Gf3258EnrollmentGraphError::CurrentIsNotNewest {
                    current,
                    sample_count: g.samples.len() as usize,
                },
            ),
        )
    } else {
        match list_error(g, current, list, list.len()) {
            Some(error) => (g, Err(error)),
            None => match attached(g, m, current, list) {
                (state, Some(error)) => (state, Err(error)),
                (state, None) => match promoted(
                    founded(state, m, current, list, score_threshold),
                    m,
                    current,
                    list,
                    score_threshold,
                ) {
                    (done, _, Some(error)) => (done, Err(error)),
                    (done, joined, None) => match coverage(done, m, current) {
                        Ok(novel) => (done, Ok((joined, novel))),
                        Err(error) => (done, Err(error)),
                    },
                },
            },
        }
    }
}

/// The inverse operation as a function.
pub open spec fn inverse_model<I: Fn(Gf3258AffineQ8) -> Gf3258AffineQ8, C, N>(
    ops: &Gf3258TransformOps<I, C, N>,
) -> spec_fn(Gf3258AffineQ8) -> Gf3258AffineQ8 {
    |t: Gf3258AffineQ8| registration::inverse_of(ops.inverse, t)
}

/// The composition as a function.
pub open spec fn compose_model<
    I,
    C: Fn(Gf3258AffineQ8, Gf3258AffineQ8) -> Gf3258AffineQ8,
    N,
>(ops: &Gf3258TransformOps<I, C, N>) -> spec_fn(
    Gf3258AffineQ8,
    Gf3258AffineQ8,
) -> Gf3258AffineQ8 {
    |s: Gf3258AffineQ8, t: Gf3258AffineQ8| registration::composition_of(ops.compose, s, t)
}

/// The novel coverage as a function.
pub open spec fn novelty_model<I, C, N: Fn(&[u8; 160], &[Gf3258AffineQ8]) -> i32>(
    ops: &Gf3258TransformOps<I, C, N>,
) -> spec_fn([u8; 160], Seq<Gf3258AffineQ8>) -> i32 {
    |mask: [u8; 160], list: Seq<Gf3258AffineQ8>| registration::novelty_of(ops.novelty, mask, list)
}

/// What `score` returns.
pub open spec fn score_of<F: Fn(usize, usize, Gf3258AffineQ8) -> i32>(
    score: F,
    source: usize,
    target: usize,
    t: Gf3258AffineQ8,
) -> i32 {
    choose|r: i32| call_ensures(score, (source, target, t), r)
}

/// `score` accepts every argument, and equal arguments give equal results.
pub open spec fn deterministic_score<F: Fn(usize, usize, Gf3258AffineQ8) -> i32>(score: F) -> bool {
    &&& forall|source: usize, target: usize, t: Gf3258AffineQ8| #[trigger]
        call_requires(score, (source, target, t))
    &&& forall|source: usize, target: usize, t: Gf3258AffineQ8, r: i32| #[trigger]
        call_ensures(score, (source, target, t), r) ==> r == score_of(score, source, target, t)
}

/// The operations as functions.
pub open spec fn model_of<I, C, N, F>(
    ops: &Gf3258TransformOps<I, C, N>,
    score: &F,
) -> GraphModel where
    I: Fn(Gf3258AffineQ8) -> Gf3258AffineQ8,
    C: Fn(Gf3258AffineQ8, Gf3258AffineQ8) -> Gf3258AffineQ8,
    N: Fn(&[u8; 160], &[Gf3258AffineQ8]) -> i32,
    F: Fn(usize, usize, Gf3258AffineQ8) -> i32,
 {
    GraphModel {
        inverse: inverse_model(ops),
        compose: compose_model(ops),
        novelty: novelty_model(ops),
        score: |source: usize, target: usize, t: Gf3258AffineQ8|
            score_of(*score, source, target, t),
    }
}

/// The operations behave as the functions of `m`.
pub open spec fn models<I, C, N, F>(
    ops: &Gf3258TransformOps<I, C, N>,
    score: &F,
    m: GraphModel,
) -> bool where
    I: Fn(Gf3258AffineQ8) -> Gf3258AffineQ8,
    C: Fn(Gf3258AffineQ8, Gf3258AffineQ8) -> Gf3258AffineQ8,
    N: Fn(&[u8; 160], &[Gf3258AffineQ8]) -> i32,
    F: Fn(usize, usize, Gf3258AffineQ8) -> i32,
 {
    &&& ops.deterministic()
    &&& m.inverse == inverse_model(ops)
    &&& m.compose == compose_model(ops)
    &&& m.novelty == novelty_model(ops)
    &&& forall|source: usize, target: usize, t: Gf3258AffineQ8| #[trigger]
        call_requires(*score, (source, target, t))
    &&& forall|source: usize, target: usize, t: Gf3258AffineQ8, r: i32| #[trigger]
        call_ensures(*score, (source, target, t), r) ==> r == (m.score)(source, target, t)
}

impl Gf3258EnrollmentGraph {
    pub open spec fn state(&self) -> GraphState {
        GraphState {
            samples: self.samples@,
            rows: self.relations@,
            anchor: self.canonical_anchor,
            established: self.canonical_established,
        }
    }

    /// The relation table has its triangular shape.
    pub open spec fn wf(&self) -> bool {
        registration::is_triangular(self.relations@)
    }

    /// A graph without samples.
    pub fn new(sample_capacity: usize) -> (graph: Self)
        ensures
            graph.wf(),
            graph.samples@.len() == 0,
            graph.relations@.len() == sample_capacity,
            forall|x: int, y: int|
                0 <= y < x < sample_capacity ==> #[trigger] graph.relations@[x][y]
                    == registration::absent_relation(),
            graph.canonical_anchor == 0,
            !graph.canonical_established,
    {
        Gf3258EnrollmentGraph {
            samples: Vec::with_capacity(sample_capacity),
            relations: Gf3258PairRelationTable::new(sample_capacity),
            canonical_anchor: 0,
            canonical_established: false,
        }
    }

    /// Appends a sample and returns its index.
    pub fn push_sample(&mut self, sample: Gf3258EnrollmentSample) -> (index: usize)
        ensures
            index == old(self).samples@.len(),
            final(self).state() == (GraphState {
                samples: old(self).samples@.push(sample),
                ..old(self).state()
            }),
            final(self).relations == old(self).relations,
    {
        let index: usize = self.samples.len();
        self.samples.push(sample);
        index
    }

    /// Stores the edge from `source` to `target`, and says whether the table has
    /// a record for it.
    pub fn set_relation_source_to_target<I, C, N>(
        &mut self,
        source: usize,
        target: usize,
        relation_value: i32,
        source_to_target: Gf3258AffineQ8,
        ops: &Gf3258TransformOps<I, C, N>,
    ) -> (stored: bool) where
        I: Fn(Gf3258AffineQ8) -> Gf3258AffineQ8,
        C: Fn(Gf3258AffineQ8, Gf3258AffineQ8) -> Gf3258AffineQ8,
        N: Fn(&[u8; 160], &[Gf3258AffineQ8]) -> i32,

        requires
            old(self).wf(),
            ops.deterministic(),
        ensures
            final(self).wf(),
            stored == (registration::table_record(
                old(self).relations@,
                source as int,
                target as int,
            ) is Some),
            final(self).state() == (GraphState {
                rows: with_edge(
                    old(self).relations@,
                    inverse_model(ops),
                    source as int,
                    target as int,
                    relation_value,
                    source_to_target,
                ),
                ..old(self).state()
            }),
    {
        if source == target {
            return false;
        }
        let canonical: Gf3258AffineQ8 = if source > target {
            source_to_target
        } else {
            ops.inverted(source_to_target)
        };
        self.relations.set_canonical_record(
            source,
            target,
            Gf3258PairRelation { relation_value, transform_higher_to_lower: canonical },
        )
    }

    /// Value and transform of the edge from `source` to `target`; a negative
    /// value marks an absent edge.
    pub fn relation_source_to_target<I, C, N>(
        &self,
        source: usize,
        target: usize,
        ops: &Gf3258TransformOps<I, C, N>,
    ) -> (relation: Option<(i32, Gf3258AffineQ8)>) where
        I: Fn(Gf3258AffineQ8) -> Gf3258AffineQ8,
        C: Fn(Gf3258AffineQ8, Gf3258AffineQ8) -> Gf3258AffineQ8,
        N: Fn(&[u8; 160], &[Gf3258AffineQ8]) -> i32,

        requires
            self.wf(),
            ops.deterministic(),
        ensures
            relation == edge(self.relations@, inverse_model(ops), source as int, target as int),
    {
        match self.relations.canonical_record(source, target) {
            Some(record) => Some(
                (
                    record.relation_value,
                    if source > target {
                        record.transform_higher_to_lower
                    } else {
                        ops.inverted(record.transform_higher_to_lower)
                    },
                ),
            ),
            None => None,
        }
    }
}

/// Transform from a canonical sample to the anchor.
fn sample_to_anchor<I, C, N, F>(
    graph: &Gf3258EnrollmentGraph,
    sample: usize,
    ops: &Gf3258TransformOps<I, C, N>,
    score: &F,
    Ghost(m): Ghost<GraphModel>,
) -> (t: Option<Gf3258AffineQ8>) where
    I: Fn(Gf3258AffineQ8) -> Gf3258AffineQ8,
    C: Fn(Gf3258AffineQ8, Gf3258AffineQ8) -> Gf3258AffineQ8,
    N: Fn(&[u8; 160], &[Gf3258AffineQ8]) -> i32,
    F: Fn(usize, usize, Gf3258AffineQ8) -> i32,

    requires
        graph.wf(),
        models(ops, score, m),
    ensures
        t == to_anchor(graph.state(), m, sample as int),
{
    if !graph.canonical_established || sample >= graph.samples.len() {
        return None;
    }
    if sample == graph.canonical_anchor {
        return Some(Gf3258AffineQ8::identity());
    }
    if !graph.samples[sample].canonical_member {
        return None;
    }
    match graph.relation_source_to_target(sample, graph.canonical_anchor, ops) {
        Some((value, t)) => if value >= 0 {
            Some(t)
        } else {
            None
        },
        None => None,
    }
}

/// Makes a sample canonical.
fn join(graph: &mut Gf3258EnrollmentGraph, sample: usize)
    requires
        sample < old(graph).samples@.len(),
    ensures
        final(graph).state() == with_member(old(graph).state(), sample as int),
        final(graph).relations == old(graph).relations,
{
    let mut joined: Gf3258EnrollmentSample = graph.samples[sample];
    joined.canonical_member = true;
    graph.samples.set(sample, joined);
}

/// Makes a sample canonical and stores its transform to the anchor.
fn store_to_anchor<I, C, N, F>(
    graph: &mut Gf3258EnrollmentGraph,
    sample: usize,
    relation_value: i32,
    sample_to_anchor: Gf3258AffineQ8,
    ops: &Gf3258TransformOps<I, C, N>,
    score: &F,
    Ghost(m): Ghost<GraphModel>,
) where
    I: Fn(Gf3258AffineQ8) -> Gf3258AffineQ8,
    C: Fn(Gf3258AffineQ8, Gf3258AffineQ8) -> Gf3258AffineQ8,
    N: Fn(&[u8; 160], &[Gf3258AffineQ8]) -> i32,
    F: Fn(usize, usize, Gf3258AffineQ8) -> i32,

    requires
        old(graph).wf(),
        models(ops, score, m),
        sample < old(graph).samples@.len(),
    ensures
        final(graph).wf(),
        final(graph).state() == with_anchored(
            old(graph).state(),
            m,
            sample as int,
            relation_value,
            sample_to_anchor,
        ),
{
    let anchor: usize = graph.canonical_anchor;
    join(graph, sample);
    if sample != anchor {
        graph.set_relation_source_to_target(sample, anchor, relation_value, sample_to_anchor, ops);
    }
}

/// The value that the current sample's link to the anchor keeps.
fn link_value(graph: &Gf3258EnrollmentGraph, sample: usize) -> (value: i32)
    requires
        graph.wf(),
    ensures
        value == kept_value(graph.state(), sample as int),
{
    match graph.relations.canonical_record(sample, graph.canonical_anchor) {
        Some(record) => if record.relation_value < 0 {
            0
        } else {
            record.relation_value
        },
        None => 0,
    }
}

/// Strongest edge from the current sample among the listed ones.
fn strongest_edge<I, C, N, F>(
    graph: &Gf3258EnrollmentGraph,
    current: usize,
    list: &[usize],
    canonical_only: bool,
    ops: &Gf3258TransformOps<I, C, N>,
    score: &F,
    Ghost(m): Ghost<GraphModel>,
) -> (best: Option<(usize, i32, Gf3258AffineQ8)>) where
    I: Fn(Gf3258AffineQ8) -> Gf3258AffineQ8,
    C: Fn(Gf3258AffineQ8, Gf3258AffineQ8) -> Gf3258AffineQ8,
    N: Fn(&[u8; 160], &[Gf3258AffineQ8]) -> i32,
    F: Fn(usize, usize, Gf3258AffineQ8) -> i32,

    requires
        graph.wf(),
        models(ops, score, m),
        forall|i: int| 0 <= i < list@.len() ==> (#[trigger] list@[i]) < graph.samples@.len(),
    ensures
        best == strongest(
            graph.state(),
            m,
            current,
            list@,
            canonical_only,
            list@.len(),
        ),
        best is Some ==> best->Some_0.0 < graph.samples@.len(),
{
    let mut best: Option<(usize, i32, Gf3258AffineQ8)> = None;
    for i in 0..list.len()
        invariant
            graph.wf(),
            models(ops, score, m),
            forall|i: int| 0 <= i < list@.len() ==> (#[trigger] list@[i]) < graph.samples@.len(),
            best == strongest(
                graph.state(),
                m,
                current,
                list@,
                canonical_only,
                i as nat,
            ),
            best is Some ==> best->Some_0.0 < graph.samples@.len(),
    {
        let index: usize = list[i];
        assert(index == list@[i as int]);
        if !canonical_only || graph.samples[index].canonical_member {
            match graph.relation_source_to_target(current, index, ops) {
                Some((value, t)) => {
                    let better: bool = match best {
                        Some((_, best_value, _)) => value >= best_value,
                        None => true,
                    };
                    if better {
                        best = Some((index, value, t));
                    }
                },
                None => {},
            }
        }
    }
    best
}

/// Attaches the current sample to an existing component.
fn attach_current<I, C, N, F>(
    graph: &mut Gf3258EnrollmentGraph,
    current: usize,
    list: &[usize],
    ops: &Gf3258TransformOps<I, C, N>,
    score: &F,
    Ghost(m): Ghost<GraphModel>,
) -> (error: Option<Gf3258EnrollmentGraphError>) where
    I: Fn(Gf3258AffineQ8) -> Gf3258AffineQ8,
    C: Fn(Gf3258AffineQ8, Gf3258AffineQ8) -> Gf3258AffineQ8,
    N: Fn(&[u8; 160], &[Gf3258AffineQ8]) -> i32,
    F: Fn(usize, usize, Gf3258AffineQ8) -> i32,

    requires
        old(graph).wf(),
        models(ops, score, m),
        current < old(graph).samples@.len(),
        forall|i: int| 0 <= i < list@.len() ==> (#[trigger] list@[i]) < old(graph).samples@.len(),
    ensures
        final(graph).wf(),
        final(graph).samples@.len() == old(graph).samples@.len(),
        (final(graph).state(), error) == attached(
            old(graph).state(),
            m,
            current,
            list@,
        ),
{
    if !graph.canonical_established {
        return None;
    }
    match strongest_edge(graph, current, list, true, ops, score, Ghost(m)) {
        Some((through, _, current_to_through)) => {
            match sample_to_anchor(graph, through, ops, score, Ghost(m)) {
                Some(through_to_anchor) => {
                    let current_to_anchor: Gf3258AffineQ8 = ops.composed(
                        through_to_anchor,
                        current_to_through,
                    );
                    let value: i32 = link_value(graph, current);
                    store_to_anchor(graph, current, value, current_to_anchor, ops, score, Ghost(m));
                    None
                },
                None => Some(
                    Gf3258EnrollmentGraphError::MissingCanonicalTransform {
                        sample: through,
                        anchor: graph.canonical_anchor,
                    },
                ),
            }
        },
        None => None,
    }
}

/// Founds a component where there is none and a strong relation allows it.
fn found_component<I, C, N, F>(
    graph: &mut Gf3258EnrollmentGraph,
    current: usize,
    list: &[usize],
    score_threshold: i32,
    ops: &Gf3258TransformOps<I, C, N>,
    score: &F,
    Ghost(m): Ghost<GraphModel>,
) where
    I: Fn(Gf3258AffineQ8) -> Gf3258AffineQ8,
    C: Fn(Gf3258AffineQ8, Gf3258AffineQ8) -> Gf3258AffineQ8,
    N: Fn(&[u8; 160], &[Gf3258AffineQ8]) -> i32,
    F: Fn(usize, usize, Gf3258AffineQ8) -> i32,

    requires
        old(graph).wf(),
        models(ops, score, m),
        current < old(graph).samples@.len(),
        forall|i: int| 0 <= i < list@.len() ==> (#[trigger] list@[i]) < old(graph).samples@.len(),
    ensures
        final(graph).wf(),
        final(graph).samples@.len() == old(graph).samples@.len(),
        final(graph).state() == founded(
            old(graph).state(),
            m,
            current,
            list@,
            score_threshold,
        ),
{
    if graph.canonical_established {
        return ;
    }
    match strongest_edge(graph, current, list, false, ops, score, Ghost(m)) {
        Some((anchor, value, current_to_anchor)) => {
            if value > 5 && score(current, anchor, current_to_anchor) > score_threshold {
                graph.canonical_anchor = anchor;
                graph.canonical_established = true;
                join(graph, anchor);
                join(graph, current);
                graph.set_relation_source_to_target(
                    current,
                    anchor,
                    value,
                    current_to_anchor,
                    ops,
                );
            }
        },
        None => {},
    }
}

/// Promotes the listed samples that score well against the current one.
fn promote_directly<I, C, N, F>(
    graph: &mut Gf3258EnrollmentGraph,
    current: usize,
    list: &[usize],
    current_to_anchor: Gf3258AffineQ8,
    ops: &Gf3258TransformOps<I, C, N>,
    score: &F,
    Ghost(m): Ghost<GraphModel>,
) -> (joined: Vec<usize>) where
    I: Fn(Gf3258AffineQ8) -> Gf3258AffineQ8,
    C: Fn(Gf3258AffineQ8, Gf3258AffineQ8) -> Gf3258AffineQ8,
    N: Fn(&[u8; 160], &[Gf3258AffineQ8]) -> i32,
    F: Fn(usize, usize, Gf3258AffineQ8) -> i32,

    requires
        old(graph).wf(),
        models(ops, score, m),
        forall|i: int| 0 <= i < list@.len() ==> (#[trigger] list@[i]) < old(graph).samples@.len(),
    ensures
        final(graph).wf(),
        final(graph).samples@.len() == old(graph).samples@.len(),
        (final(graph).state(), joined@) == promoted_directly(
            old(graph).state(),
            m,
            current,
            list@,
            current_to_anchor,
            list@.len(),
        ),
{
    let ghost start = graph.state();
    let mut joined: Vec<usize> = Vec::new();
    for i in 0..list.len()
        invariant
            graph.wf(),
            models(ops, score, m),
            graph.samples@.len() == start.samples.len(),
            forall|i: int| 0 <= i < list@.len() ==> (#[trigger] list@[i]) < start.samples.len(),
            (graph.state(), joined@) == promoted_directly(
                start,
                m,
                current,
                list@,
                current_to_anchor,
                i as nat,
            ),
    {
        let previous: usize = list[i];
        assert(previous == list@[i as int]);
        if !graph.samples[previous].canonical_member {
            match graph.relation_source_to_target(current, previous, ops) {
                Some((value, current_to_previous)) => {
                    if value >= 0 && score(current, previous, current_to_previous)
                        >= GF3258_REGISTRATION_SCORE_WEAK {
                        let previous_to_current: Gf3258AffineQ8 = ops.inverted(current_to_previous);
                        let previous_to_anchor: Gf3258AffineQ8 = ops.composed(
                            current_to_anchor,
                            previous_to_current,
                        );
                        store_to_anchor(graph, previous, 0, previous_to_anchor, ops, score, Ghost(m));
                        joined.push(previous);
                    }
                },
                None => {},
            }
        }
    }
    joined
}

/// Promotes the samples that are connected to `through`.
fn promote_through<I, C, N, F>(
    graph: &mut Gf3258EnrollmentGraph,
    current: usize,
    through: usize,
    through_to_anchor: Gf3258AffineQ8,
    score_threshold: i32,
    queue: &mut Vec<usize>,
    ops: &Gf3258TransformOps<I, C, N>,
    score: &F,
    Ghost(m): Ghost<GraphModel>,
) where
    I: Fn(Gf3258AffineQ8) -> Gf3258AffineQ8,
    C: Fn(Gf3258AffineQ8, Gf3258AffineQ8) -> Gf3258AffineQ8,
    N: Fn(&[u8; 160], &[Gf3258AffineQ8]) -> i32,
    F: Fn(usize, usize, Gf3258AffineQ8) -> i32,

    requires
        old(graph).wf(),
        models(ops, score, m),
        current <= old(graph).samples@.len(),
    ensures
        final(graph).wf(),
        final(graph).samples@.len() == old(graph).samples@.len(),
        (final(graph).state(), final(queue)@) == promoted_through(
            old(graph).state(),
            m,
            through,
            through_to_anchor,
            score_threshold,
            old(queue)@,
            current as nat,
        ),
{
    let ghost start = graph.state();
    let ghost queued = queue@;
    for candidate in 0..current
        invariant
            graph.wf(),
            models(ops, score, m),
            current <= start.samples.len(),
            graph.samples@.len() == start.samples.len(),
            (graph.state(), queue@) == promoted_through(
                start,
                m,
                through,
                through_to_anchor,
                score_threshold,
                queued,
                candidate as nat,
            ),
    {
        if candidate != through && !graph.samples[candidate].canonical_member {
            match graph.relation_source_to_target(candidate, through, ops) {
                Some((value, candidate_to_through)) => {
                    if value >= 0 && score(candidate, through, candidate_to_through)
                        > score_threshold {
                        let candidate_to_anchor: Gf3258AffineQ8 = ops.composed(
                            through_to_anchor,
                            candidate_to_through,
                        );
                        store_to_anchor(graph, candidate, 0, candidate_to_anchor, ops, score, Ghost(m));
                        queue.push(candidate);
                    }
                },
                None => {},
            }
        }
    }
}

/// Promotes everything that the current sample brings into the component.
fn promote_all<I, C, N, F>(
    graph: &mut Gf3258EnrollmentGraph,
    current: usize,
    list: &[usize],
    score_threshold: i32,
    ops: &Gf3258TransformOps<I, C, N>,
    score: &F,
    Ghost(m): Ghost<GraphModel>,
) -> (outcome: (Vec<usize>, Option<Gf3258EnrollmentGraphError>)) where
    I: Fn(Gf3258AffineQ8) -> Gf3258AffineQ8,
    C: Fn(Gf3258AffineQ8, Gf3258AffineQ8) -> Gf3258AffineQ8,
    N: Fn(&[u8; 160], &[Gf3258AffineQ8]) -> i32,
    F: Fn(usize, usize, Gf3258AffineQ8) -> i32,

    requires
        old(graph).wf(),
        models(ops, score, m),
        current < old(graph).samples@.len(),
        forall|i: int| 0 <= i < list@.len() ==> (#[trigger] list@[i]) < old(graph).samples@.len(),
    ensures
        final(graph).wf(),
        final(graph).samples@.len() == old(graph).samples@.len(),
        (final(graph).state(), outcome.0@, outcome.1) == promoted(
            old(graph).state(),
            m,
            current,
            list@,
            score_threshold,
        ),
{
    if !graph.canonical_established || !graph.samples[current].canonical_member {
        let none: Vec<usize> = Vec::new();
        assert(none@ =~= Seq::empty());
        return (none, None);
    }
    let current_to_anchor: Gf3258AffineQ8 = match sample_to_anchor(graph, current, ops, score, Ghost(m)) {
        Some(t) => t,
        None => {
            let none: Vec<usize> = Vec::new();
            assert(none@ =~= Seq::empty());
            return (
                none,
                Some(
                    Gf3258EnrollmentGraphError::MissingCanonicalTransform {
                        sample: current,
                        anchor: graph.canonical_anchor,
                    },
                ),
            );
        },
    };
    let mut queue: Vec<usize> = promote_directly(
        graph,
        current,
        list,
        current_to_anchor,
        ops,
        score, Ghost(m));
    let ghost goal = closed_over(graph.state(), m, current, score_threshold, queue@, 0);
    let mut at: usize = 0;
    while at < queue.len()
        invariant
            graph.wf(),
            models(ops, score, m),
            current < graph.samples@.len(),
            graph.samples@.len() == old(graph).samples@.len(),
            at <= queue@.len(),
            goal == promoted(old(graph).state(), m, current, list@, score_threshold),
            goal == closed_over(graph.state(), m, current, score_threshold, queue@, at as nat),
        decreases outside_count(graph.samples@, current as nat) + queue@.len() - at,
    {
        let through: usize = queue[at];
        match sample_to_anchor(graph, through, ops, score, Ghost(m)) {
            Some(through_to_anchor) => {
                proof {
                    lemma_promoted_through(
                        graph.state(),
                        m,
                        through,
                        through_to_anchor,
                        score_threshold,
                        queue@,
                        current as nat,
                        current as nat,
                    );
                }
                promote_through(
                    graph,
                    current,
                    through,
                    through_to_anchor,
                    score_threshold,
                    &mut queue,
                    ops,
                    score, Ghost(m));
                at = at + 1;
            },
            None => {
                return (
                    queue,
                    Some(
                        Gf3258EnrollmentGraphError::MissingCanonicalTransform {
                            sample: through,
                            anchor: graph.canonical_anchor,
                        },
                    ),
                );
            },
        }
    }
    (queue, None)
}

/// Novel coverage of the current sample.
fn novel_coverage<I, C, N, F>(
    graph: &Gf3258EnrollmentGraph,
    current: usize,
    ops: &Gf3258TransformOps<I, C, N>,
    score: &F,
    Ghost(m): Ghost<GraphModel>,
) -> (result: Result<i32, Gf3258EnrollmentGraphError>) where
    I: Fn(Gf3258AffineQ8) -> Gf3258AffineQ8,
    C: Fn(Gf3258AffineQ8, Gf3258AffineQ8) -> Gf3258AffineQ8,
    N: Fn(&[u8; 160], &[Gf3258AffineQ8]) -> i32,
    F: Fn(usize, usize, Gf3258AffineQ8) -> i32,

    requires
        graph.wf(),
        models(ops, score, m),
        current < graph.samples@.len(),
    ensures
        result == coverage(graph.state(), m, current),
{
    if !graph.canonical_established || !graph.samples[current].canonical_member {
        return Ok(0);
    }
    let current_to_anchor: Gf3258AffineQ8 = match sample_to_anchor(graph, current, ops, score, Ghost(m)) {
        Some(t) => t,
        None => {
            return Err(
                Gf3258EnrollmentGraphError::MissingCanonicalTransform {
                    sample: current,
                    anchor: graph.canonical_anchor,
                },
            );
        },
    };
    let mut current_to_other: Vec<Gf3258AffineQ8> = Vec::new();
    assert(current_to_other@ =~= Seq::empty());
    for other in 0..current
        invariant
            graph.wf(),
            models(ops, score, m),
            current < graph.samples@.len(),
            to_anchor(graph.state(), m, current as int) == Some(current_to_anchor),
            graph.canonical_established && graph.samples@[current as int].canonical_member,
            transforms_to_others(graph.state(), m, current_to_anchor, other as nat) == Ok::<
                Seq<Gf3258AffineQ8>,
                Gf3258EnrollmentGraphError,
            >(current_to_other@),
    {
        if graph.samples[other].canonical_member && graph.samples[other].status != 5 {
            if other == graph.canonical_anchor {
                current_to_other.push(current_to_anchor);
            } else {
                match sample_to_anchor(graph, other, ops, score, Ghost(m)) {
                    Some(other_to_anchor) => {
                        let anchor_to_other: Gf3258AffineQ8 = ops.inverted(other_to_anchor);
                        current_to_other.push(ops.composed(anchor_to_other, current_to_anchor));
                    },
                    None => {
                        let error: Gf3258EnrollmentGraphError =
                            Gf3258EnrollmentGraphError::MissingCanonicalTransform {
                            sample: other,
                            anchor: graph.canonical_anchor,
                        };
                        proof {
                            lemma_transforms_error(
                                graph.state(),
                                m,
                                current_to_anchor,
                                (other + 1) as nat,
                                current as nat,
                            );
                        }
                        return Err(error);
                    },
                }
            }
        }
    }
    Ok(ops.novel_coverage(&graph.samples[current].packed_validity, &current_to_other))
}

/// An error among the first samples stays the error of all.
proof fn lemma_transforms_error(
    g: GraphState,
    m: GraphModel,
    current_to_anchor: Gf3258AffineQ8,
    k: nat,
    n: nat,
)
    requires
        k <= n,
        transforms_to_others(g, m, current_to_anchor, k) is Err,
    ensures
        transforms_to_others(g, m, current_to_anchor, n) == transforms_to_others(
            g,
            m,
            current_to_anchor,
            k,
        ),
    decreases n,
{
    if k < n {
        lemma_transforms_error(g, m, current_to_anchor, k, (n - 1) as nat);
    }
}

/// An error in the list stays the error of every longer part of it.
proof fn lemma_list_error(g: GraphState, current: usize, list: Seq<usize>, k: nat, n: nat)
    requires
        k <= n,
        list_error(g, current, list, k) is Some,
    ensures
        list_error(g, current, list, n) == list_error(g, current, list, k),
    decreases n,
{
    if k < n {
        lemma_list_error(g, current, list, k, (n - 1) as nat);
    }
}

/// Integrates the newest sample, for operations that behave as `m`.
pub(crate) fn integrate_modelled<I, C, N, F>(
    graph: &mut Gf3258EnrollmentGraph,
    current: usize,
    successful_previous: &[usize],
    score_threshold: i32,
    ops: &Gf3258TransformOps<I, C, N>,
    score: &F,
    Ghost(m): Ghost<GraphModel>,
) -> (result: Result<Gf3258EnrollmentIntegrationResult, Gf3258EnrollmentGraphError>) where
    I: Fn(Gf3258AffineQ8) -> Gf3258AffineQ8,
    C: Fn(Gf3258AffineQ8, Gf3258AffineQ8) -> Gf3258AffineQ8,
    N: Fn(&[u8; 160], &[Gf3258AffineQ8]) -> i32,
    F: Fn(usize, usize, Gf3258AffineQ8) -> i32,

    requires
        old(graph).wf(),
        models(ops, score, m),
    ensures
        final(graph).wf(),
        ({
            let (state, outcome) = integrated(
                old(graph).state(),
                m,
                current,
                successful_previous@,
                score_threshold,
            );
            &&& final(graph).state() == state
            &&& match outcome {
                Ok((joined, novel)) => {
                    &&& result is Ok
                    &&& result->Ok_0.current_index == current
                    &&& result->Ok_0.canonical_anchor == (if state.established {
                        Some(state.anchor)
                    } else {
                        None
                    })
                    &&& result->Ok_0.current_is_canonical
                        == state.samples[current as int].canonical_member
                    &&& result->Ok_0.promoted_samples@ == joined
                    &&& result->Ok_0.novel_coverage == novel
                },
                Err(error) => result == Err::<
                    Gf3258EnrollmentIntegrationResult,
                    Gf3258EnrollmentGraphError,
                >(error),
            }
        }),
{
    let sample_count: usize = graph.samples.len();
    if current == usize::MAX || current + 1 != sample_count {
        return Err(
            Gf3258EnrollmentGraphError::CurrentIsNotNewest { current, sample_count },
        );
    }
    let ghost start = graph.state();
    for i in 0..successful_previous.len()
        invariant
            graph.wf(),
            graph.state() == start,
            list_error(start, current, successful_previous@, i as nat) is None,
            forall|j: int| 0 <= j < i ==> (#[trigger] successful_previous@[j]) < current,
            current + 1 == start.samples.len(),
            *graph == *old(graph),
    {
        let previous: usize = successful_previous[i];
        if previous >= current {
            proof {
                lemma_list_error(
                    start,
                    current,
                    successful_previous@,
                    (i + 1) as nat,
                    successful_previous@.len(),
                );
            }
            return Err(
                Gf3258EnrollmentGraphError::PreviousIndexOutOfRange { index: previous, current },
            );
        }
        if graph.relations.canonical_record(current, previous).is_none() {
            proof {
                lemma_list_error(
                    start,
                    current,
                    successful_previous@,
                    (i + 1) as nat,
                    successful_previous@.len(),
                );
            }
            return Err(
                Gf3258EnrollmentGraphError::MissingDirectRelation { current, previous },
            );
        }
    }
    match attach_current(graph, current, successful_previous, ops, score, Ghost(m)) {
        Some(error) => {
            return Err(error);
        },
        None => {},
    }
    found_component(graph, current, successful_previous, score_threshold, ops, score, Ghost(m));
    let (promoted_samples, error): (Vec<usize>, Option<Gf3258EnrollmentGraphError>) =
        promote_all(graph, current, successful_previous, score_threshold, ops, score, Ghost(m));
    match error {
        Some(error) => {
            return Err(error);
        },
        None => {},
    }
    let novel: i32 = match novel_coverage(graph, current, ops, score, Ghost(m)) {
        Ok(novel) => novel,
        Err(error) => {
            return Err(error);
        },
    };
    Ok(
        Gf3258EnrollmentIntegrationResult {
            current_index: current,
            canonical_anchor: if graph.canonical_established {
                Some(graph.canonical_anchor)
            } else {
                None
            },
            current_is_canonical: graph.samples[current].canonical_member,
            promoted_samples,
            novel_coverage: novel,
        },
    )
}

/// Integrates the newest sample into the graph.
///
/// `successful_previous` lists the earlier samples that the new one was
/// registered against; the direct relations must already be stored. `score`
/// gives the map score of a source and a target under a transform.
pub fn gf3258_integrate_enrollment_graph<I, C, N, F>(
    graph: &mut Gf3258EnrollmentGraph,
    current: usize,
    successful_previous: &[usize],
    score_threshold: i32,
    ops: &Gf3258TransformOps<I, C, N>,
    score: &F,
) -> (result: Result<Gf3258EnrollmentIntegrationResult, Gf3258EnrollmentGraphError>) where
    I: Fn(Gf3258AffineQ8) -> Gf3258AffineQ8,
    C: Fn(Gf3258AffineQ8, Gf3258AffineQ8) -> Gf3258AffineQ8,
    N: Fn(&[u8; 160], &[Gf3258AffineQ8]) -> i32,
    F: Fn(usize, usize, Gf3258AffineQ8) -> i32,

    requires
        old(graph).wf(),
        ops.deterministic(),
        deterministic_score(*score),
    ensures
        final(graph).wf(),
        ({
            let (state, outcome) = integrated(
                old(graph).state(),
                model_of(ops, score),
                current,
                successful_previous@,
                score_threshold,
            );
            &&& final(graph).state() == state
            &&& match outcome {
                Ok((joined, novel)) => {
                    &&& result is Ok
                    &&& result->Ok_0.current_index == current
                    &&& result->Ok_0.canonical_anchor == (if state.established {
                        Some(state.anchor)
                    } else {
                        None
                    })
                    &&& result->Ok_0.current_is_canonical
                        == state.samples[current as int].canonical_member
                    &&& result->Ok_0.promoted_samples@ == joined
                    &&& result->Ok_0.novel_coverage == novel
                },
                Err(error) => result == Err::<
                    Gf3258EnrollmentIntegrationResult,
                    Gf3258EnrollmentGraphError,
                >(error),
            }
        }),
{
    integrate_modelled(
        graph,
        current,
        successful_previous,
        score_threshold,
        ops,
        score,
        Ghost(model_of(ops, score)),
    )
}

/// `b` has the samples of `a`, at most more of them canonical, and the anchor of
/// `a` if `a` has one.
pub open spec fn extends(a: GraphState, b: GraphState) -> bool {
    &&& a.samples.len() == b.samples.len()
    &&& a.rows.len() == b.rows.len()
    &&& a.established ==> b.established && a.anchor == b.anchor
    &&& forall|i: int|
        0 <= i < a.samples.len() ==> {
            &&& (#[trigger] b.samples[i]).status == a.samples[i].status
            &&& b.samples[i].primary_registration_map == a.samples[i].primary_registration_map
            &&& b.samples[i].secondary_registration_map == a.samples[i].secondary_registration_map
            &&& b.samples[i].packed_validity == a.samples[i].packed_validity
            &&& a.samples[i].canonical_member ==> b.samples[i].canonical_member
        }
}

/// `joined` lists, each once, samples below `current` that are canonical in `b`
/// and were not in `a`.
pub open spec fn newly_joined(
    a: GraphState,
    b: GraphState,
    current: usize,
    joined: Seq<usize>,
) -> bool {
    &&& joined.no_duplicates()
    &&& forall|k: int|
        0 <= k < joined.len() ==> {
            &&& (#[trigger] joined[k]) < current
            &&& !a.samples[joined[k] as int].canonical_member
            &&& b.samples[joined[k] as int].canonical_member
        }
}

/// Of the samples below `current`, only listed ones are canonical in `b` and were
/// not in `a`.
pub open spec fn only_listed_joined(
    a: GraphState,
    b: GraphState,
    current: usize,
    joined: Seq<usize>,
) -> bool {
    forall|i: int|
        0 <= i < current && (#[trigger] b.samples[i]).canonical_member
            && !a.samples[i].canonical_member ==> joined.contains(i as usize)
}

proof fn lemma_push_joined(
    before: GraphState,
    after: GraphState,
    origin: GraphState,
    current: usize,
    joined: Seq<usize>,
    sample: usize,
)
    requires
        only_listed_joined(origin, before, current, joined),
        sample < current,
        forall|i: int|
            0 <= i < current && i != sample ==> (#[trigger] after.samples[i]).canonical_member
                == before.samples[i].canonical_member,
    ensures
        only_listed_joined(origin, after, current, joined.push(sample)),
{
    let more = joined.push(sample);
    assert forall|i: int|
        0 <= i < current && (#[trigger] after.samples[i]).canonical_member
            && !origin.samples[i].canonical_member implies more.contains(i as usize) by {
        if i == sample {
            assert(more[joined.len() as int] == sample);
        } else {
            assert(before.samples[i].canonical_member);
            let k = choose|k: int| 0 <= k < joined.len() && joined[k] == i as usize;
            assert(more[k] == i as usize);
        }
    }
}

proof fn lemma_directly_extends(
    g: GraphState,
    m: GraphModel,
    current: usize,
    list: Seq<usize>,
    current_to_anchor: Gf3258AffineQ8,
    n: nat,
)
    requires
        n <= list.len(),
        current < g.samples.len(),
        forall|i: int| 0 <= i < list.len() ==> (#[trigger] list[i]) < current,
    ensures
        ({
            let after = promoted_directly(g, m, current, list, current_to_anchor, n);
            &&& extends(g, after.0)
            &&& newly_joined(g, after.0, current, after.1)
            &&& only_listed_joined(g, after.0, current, after.1)
        }),
    decreases n,
{
    if n > 0 {
        lemma_directly_extends(g, m, current, list, current_to_anchor, (n - 1) as nat);
        let before = promoted_directly(g, m, current, list, current_to_anchor, (n - 1) as nat);
        let after = promoted_directly(g, m, current, list, current_to_anchor, n);
        let previous = list[n - 1];
        if after != before {
            assert(!before.1.contains(previous)) by {
                if before.1.contains(previous) {
                    let k = choose|k: int| 0 <= k < before.1.len() && before.1[k] == previous;
                    assert(before.0.samples[before.1[k] as int].canonical_member);
                }
            }
            assert(after.1 == before.1.push(previous));
            lemma_push_joined(before.0, after.0, g, current, before.1, previous);
        }
    }
}

proof fn lemma_through_extends(
    g: GraphState,
    m: GraphModel,
    through: usize,
    through_to_anchor: Gf3258AffineQ8,
    score_threshold: i32,
    queue: Seq<usize>,
    n: nat,
    origin: GraphState,
    current: usize,
)
    requires
        n <= current < g.samples.len(),
        extends(origin, g),
        newly_joined(origin, g, current, queue),
        only_listed_joined(origin, g, current, queue),
    ensures
        ({
            let after = promoted_through(
                g,
                m,
                through,
                through_to_anchor,
                score_threshold,
                queue,
                n,
            );
            &&& extends(origin, after.0)
            &&& newly_joined(origin, after.0, current, after.1)
            &&& only_listed_joined(origin, after.0, current, after.1)
        }),
    decreases n,
{
    if n > 0 {
        lemma_through_extends(
            g,
            m,
            through,
            through_to_anchor,
            score_threshold,
            queue,
            (n - 1) as nat,
            origin,
            current,
        );
        let before = promoted_through(
            g,
            m,
            through,
            through_to_anchor,
            score_threshold,
            queue,
            (n - 1) as nat,
        );
        let after = promoted_through(
            g,
            m,
            through,
            through_to_anchor,
            score_threshold,
            queue,
            n,
        );
        let candidate = (n - 1) as usize;
        if after != before {
            assert(!before.1.contains(candidate)) by {
                if before.1.contains(candidate) {
                    let k = choose|k: int| 0 <= k < before.1.len() && before.1[k] == candidate;
                    assert(before.0.samples[before.1[k] as int].canonical_member);
                }
            }
            assert(after.1 == before.1.push(candidate));
            lemma_push_joined(before.0, after.0, origin, current, before.1, candidate);
        }
    }
}

proof fn lemma_closure_extends(
    g: GraphState,
    m: GraphModel,
    current: usize,
    score_threshold: i32,
    queue: Seq<usize>,
    at: nat,
    origin: GraphState,
)
    requires
        current < g.samples.len(),
        extends(origin, g),
        newly_joined(origin, g, current, queue),
        only_listed_joined(origin, g, current, queue),
    ensures
        ({
            let after = closed_over(g, m, current, score_threshold, queue, at);
            &&& extends(origin, after.0)
            &&& newly_joined(origin, after.0, current, after.1)
            &&& only_listed_joined(origin, after.0, current, after.1)
        }),
    decreases
            (if at < queue.len() && current <= g.samples.len() {
                outside_count(g.samples, current as nat) + queue.len() - at
            } else {
                0
            }),
{
    if at < queue.len() {
        match to_anchor(g, m, queue[at as int] as int) {
            Some(through_to_anchor) => {
                let through = queue[at as int];
                let after = promoted_through(
                    g,
                    m,
                    through,
                    through_to_anchor,
                    score_threshold,
                    queue,
                    current as nat,
                );
                lemma_promoted_through(
                    g,
                    m,
                    through,
                    through_to_anchor,
                    score_threshold,
                    queue,
                    current as nat,
                    current as nat,
                );
                lemma_through_extends(
                    g,
                    m,
                    through,
                    through_to_anchor,
                    score_threshold,
                    queue,
                    current as nat,
                    origin,
                    current,
                );
                lemma_closure_extends(
                    after.0,
                    m,
                    current,
                    score_threshold,
                    after.1,
                    at + 1,
                    origin,
                );
            },
            None => {},
        }
    }
}

proof fn lemma_strongest_listed(
    g: GraphState,
    m: GraphModel,
    current: usize,
    list: Seq<usize>,
    canonical_only: bool,
    n: nat,
)
    requires
        n <= list.len(),
    ensures
        match strongest(g, m, current, list, canonical_only, n) {
            Some((index, _, _)) => list.contains(index) && (canonical_only
                ==> g.samples[index as int].canonical_member),
            None => true,
        },
    decreases n,
{
    if n > 0 {
        lemma_strongest_listed(g, m, current, list, canonical_only, (n - 1) as nat);
        assert(list.contains(list[n - 1]));
    }
}

proof fn lemma_no_list_error(g: GraphState, current: usize, list: Seq<usize>, n: nat)
    requires
        n <= list.len(),
        list_error(g, current, list, n) is None,
    ensures
        forall|i: int| 0 <= i < n ==> (#[trigger] list[i]) < current,
    decreases n,
{
    if n > 0 {
        lemma_no_list_error(g, current, list, (n - 1) as nat);
    }
}

/// Whatever an integration comes to, it keeps every sample and its maps, takes
/// no sample out of the canonical component, and moves no anchor. The samples it
/// reports as promoted are the earlier ones that joined the component in this
/// call, all of them but for the anchor of a component that it founded.
pub proof fn lemma_integration_only_adds_members(
    g: GraphState,
    m: GraphModel,
    current: usize,
    list: Seq<usize>,
    score_threshold: i32,
)
    ensures
        ({
            let (state, outcome) = integrated(g, m, current, list, score_threshold);
            &&& extends(g, state)
            &&& outcome is Ok ==> newly_joined(g, state, current, outcome->Ok_0.0)
            &&& outcome is Ok ==> forall|i: int|
                0 <= i < current && (#[trigger] state.samples[i]).canonical_member
                    && !g.samples[i].canonical_member ==> outcome->Ok_0.0.contains(i as usize) || (
                !g.established && state.established && state.anchor == i)
        }),
{
    if current + 1 == g.samples.len() && list_error(g, current, list, list.len()) is None {
        lemma_no_list_error(g, current, list, list.len());
        lemma_strongest_listed(g, m, current, list, true, list.len());
        let (state, error) = attached(g, m, current, list);
        assert(extends(g, state));
        if error is None {
            lemma_strongest_listed(state, m, current, list, false, list.len());
            let base = founded(state, m, current, list, score_threshold);
            assert(extends(g, base));
            if base.established && base.samples[current as int].canonical_member {
                match to_anchor(base, m, current as int) {
                    Some(current_to_anchor) => {
                        lemma_directly_extends(
                            base,
                            m,
                            current,
                            list,
                            current_to_anchor,
                            list.len(),
                        );
                        let direct = promoted_directly(
                            base,
                            m,
                            current,
                            list,
                            current_to_anchor,
                            list.len(),
                        );
                        lemma_closure_extends(
                            direct.0,
                            m,
                            current,
                            score_threshold,
                            direct.1,
                            0,
                            base,
                        );
                    },
                    None => {},
                }
            }
        }
    }
}

impl Gf3258EnrollmentGraphError {
    pub open spec fn debug_text_spec(&self) -> Seq<char> {
        match self {
            Gf3258EnrollmentGraphError::CurrentIsNotNewest { current, sample_count } => {
                "CurrentIsNotNewest { current: "@ + text::decimal(*current as nat)
                    + ", sample_count: "@ + text::decimal(*sample_count as nat) + " }"@
            },
            Gf3258EnrollmentGraphError::PreviousIndexOutOfRange { index, current } => {
                "PreviousIndexOutOfRange { index: "@ + text::decimal(*index as nat)
                    + ", current: "@ + text::decimal(*current as nat) + " }"@
            },
            Gf3258EnrollmentGraphError::MissingDirectRelation { current, previous } => {
                "MissingDirectRelation { current: "@ + text::decimal(*current as nat)
                    + ", previous: "@ + text::decimal(*previous as nat) + " }"@
            },
            Gf3258EnrollmentGraphError::MissingCanonicalTransform { sample, anchor } => {
                "MissingCanonicalTransform { sample: "@ + text::decimal(*sample as nat)
                    + ", anchor: "@ + text::decimal(*anchor as nat) + " }"@
            },
        }
    }

    /// Name and fields of this error.
    pub fn debug_text(&self) -> (text: String)
        ensures
            text@ == self.debug_text_spec(),
    {
        match self {
            Gf3258EnrollmentGraphError::CurrentIsNotNewest { current, sample_count } => {
                let mut out: String = "CurrentIsNotNewest { current: ".to_owned();
                text::push_decimal(&mut out, *current as u64);
                out.append(", sample_count: ");
                text::push_decimal(&mut out, *sample_count as u64);
                out.append(" }");
                out
            },
            Gf3258EnrollmentGraphError::PreviousIndexOutOfRange { index, current } => {
                let mut out: String = "PreviousIndexOutOfRange { index: ".to_owned();
                text::push_decimal(&mut out, *index as u64);
                out.append(", current: ");
                text::push_decimal(&mut out, *current as u64);
                out.append(" }");
                out
            },
            Gf3258EnrollmentGraphError::MissingDirectRelation { current, previous } => {
                let mut out: String = "MissingDirectRelation { current: ".to_owned();
                text::push_decimal(&mut out, *current as u64);
                out.append(", previous: ");
                text::push_decimal(&mut out, *previous as u64);
                out.append(" }");
                out
            },
            Gf3258EnrollmentGraphError::MissingCanonicalTransform { sample, anchor } => {
                let mut out: String = "MissingCanonicalTransform { sample: ".to_owned();
                text::push_decimal(&mut out, *sample as u64);
                out.append(", anchor: ");
                text::push_decimal(&mut out, *anchor as u64);
                out.append(" }");
                out
            },
        }
    }
}

} // verus!
