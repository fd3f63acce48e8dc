//! Enrollment workflow: from preprocessed frames to a template and the checked
//! bytes it is stored as.
use vstd::prelude::*;

use crate::enrollment_add;
use crate::enrollment_add::{
    Gf3258EnrollmentTemplateCore, Gf3258PersistentSourceScalars, Gf3258RegistrationEngine,
};
use crate::enrollment_graph::Gf3258EnrollmentSample;
use crate::feature::extraction;
use crate::feature::extraction::{
    gf3258_extract_primary_features_from_c2d40_source,
    gf3258_extract_unless_flat_from_c2d40_source, Gf3258PrimaryExtractionError,
    Gf3258PrimaryFeatureExtraction,
};
use crate::feature::validity;
use crate::feature::validity::{
    gf3258_enrollment_validity_from_c2d40_source, Gf3258EnrollmentValidity,
};
use crate::feature::{FeatureError, GF3258_PIXELS};
use crate::feature_enrollment;
use crate::feature_enrollment::{
    gf3258_add_extracted_feature, gf3258_new_enrollment_template, Gf3258EnrollmentReadyFeature,
    Gf3258EnrollmentStepResult, Gf3258FeatureEnrollmentError, GF3258_TEMPLATE_POINT_CAPACITY,
};
use crate::registration;
use crate::registration::{
    Gf3258AffineQ8, Gf3258MapOps, Gf3258PointRegistration, Gf3258RegistrationMapScores,
    Gf3258RegistrationPoint,
};
use crate::text;

verus! {

/// Number of accepted samples that completes an enrollment.
pub const GF3258_ENROLLMENT_TARGET_SAMPLES: usize = 12;

/// Most feature points of one sample.
pub const GF3258_ENROLLMENT_POINT_CAPACITY: usize = GF3258_TEMPLATE_POINT_CAPACITY;

pub const GF3258_NORMAL_SAMPLE_STATUS: i32 = 0;

/// Diagnostics of the preprocessing stage.
#[derive(Debug, Clone, Copy, PartialEq, Eq)]
pub struct Gf3258PreprocessDiagnostics {
    pub valid_central_pixels: usize,
    pub tested_central_pixels: usize,
    pub foreground_count: usize,
    pub coverage_percent: u16,
    pub active_difference_count: usize,
    pub gain_correction_active: bool,
    pub low_dynamic_range_count: usize,
    pub pathological_edge_samples: usize,
}

/// A frame after preprocessing.
#[derive(Debug, Clone, PartialEq, Eq)]
pub struct Gf3258PreprocessedFrame {
    pub pixels: Vec<u8>,
    pub diagnostics: Gf3258PreprocessDiagnostics,
}

/// Diagnostics of the validity stage.
#[derive(Debug, Clone, Copy, PartialEq, Eq)]
pub struct Gf3258ValidityDiagnostics {
    pub bd720_selected_pixels: usize,
    pub bd720_coverage_q16: u32,
    pub quarter_selected_cells: usize,
}

/// The diagnostics of a validity.
pub open spec fn validity_diagnostics_of(v: Gf3258EnrollmentValidity) -> Gf3258ValidityDiagnostics {
    Gf3258ValidityDiagnostics {
        bd720_selected_pixels: v.bd720.selected_pixels,
        bd720_coverage_q16: v.bd720.coverage_q16,
        quarter_selected_cells: v.quarter_selected_cells,
    }
}

impl Gf3258ValidityDiagnostics {
    pub fn from_validity(validity: &Gf3258EnrollmentValidity) -> (diagnostics: Self)
        ensures
            diagnostics == validity_diagnostics_of(*validity),
    {
        Gf3258ValidityDiagnostics {
            bd720_selected_pixels: validity.bd720.selected_pixels,
            bd720_coverage_q16: validity.bd720.coverage_q16,
            quarter_selected_cells: validity.quarter_selected_cells,
        }
    }
}

/// A capture that does not become a sample. It changes nothing.
#[derive(Debug, Clone, PartialEq, Eq)]
pub enum Gf3258EnrollmentRejection {
    /// The message of the preprocessing stage.
    Preprocess(String),
    TooManyPoints { actual: usize, capacity: usize },
    PathologicalEdge { diagnostics: Gf3258PreprocessDiagnostics },
}

/// The rejection of a point count, if it is one.
pub open spec fn point_count_rejection(actual: nat) -> Option<Gf3258EnrollmentRejection> {
    if actual > GF3258_ENROLLMENT_POINT_CAPACITY {
        Some(
            Gf3258EnrollmentRejection::TooManyPoints {
                actual: actual as usize,
                capacity: GF3258_ENROLLMENT_POINT_CAPACITY,
            },
        )
    } else {
        None
    }
}

pub fn gf3258_enrollment_point_count_rejection(actual: usize) -> (rejection: Option<
    Gf3258EnrollmentRejection,
>)
    ensures
        rejection == point_count_rejection(actual as nat),
{
    if actual > GF3258_ENROLLMENT_POINT_CAPACITY {
        Some(
            Gf3258EnrollmentRejection::TooManyPoints {
                actual,
                capacity: GF3258_ENROLLMENT_POINT_CAPACITY,
            },
        )
    } else {
        None
    }
}

/// A sample that is ready to be committed.
#[derive(Debug, Clone, PartialEq, Eq)]
pub struct Gf3258PreparedEnrollmentSample {
    pub preprocess: Gf3258PreprocessDiagnostics,
    pub extraction: Gf3258PrimaryFeatureExtraction,
    pub validity: Gf3258ValidityDiagnostics,
    pub ready: Gf3258EnrollmentReadyFeature,
}

impl Gf3258PreparedEnrollmentSample {
    pub fn preprocess_diagnostics(&self) -> (diagnostics: Gf3258PreprocessDiagnostics)
        ensures
            diagnostics == self.preprocess,
    {
        self.preprocess
    }

    pub fn extraction(&self) -> (extraction: &Gf3258PrimaryFeatureExtraction)
        ensures
            *extraction == self.extraction,
    {
        &self.extraction
    }

    pub fn validity_diagnostics(&self) -> (diagnostics: Gf3258ValidityDiagnostics)
        ensures
            diagnostics == self.validity,
    {
        self.validity
    }
}

/// Outcome of preparing a frame.
#[derive(Debug, Clone, PartialEq, Eq)]
pub enum Gf3258EnrollmentPreparation {
    Rejected(Gf3258EnrollmentRejection),
    Prepared(Gf3258PreparedEnrollmentSample),
}

/// A sample that was taken into the template.
#[derive(Debug, Clone, PartialEq, Eq)]
pub struct Gf3258EnrollmentCommit {
    pub step: Gf3258EnrollmentStepResult,
    pub sample_count: usize,
    pub progress_percent: usize,
}

/// Outcome of one frame.
#[derive(Debug, Clone, PartialEq, Eq)]
pub enum Gf3258EnrollmentFrameOutcome {
    Rejected(Gf3258EnrollmentRejection),
    Accepted(Gf3258EnrollmentCommit),
}

/// State of the graph at a glance.
#[derive(Debug, Clone, Copy, PartialEq, Eq)]
pub struct Gf3258EnrollmentGraphDiagnostics {
    pub nodes: usize,
    pub nonnegative_relations: usize,
    pub canonical_nodes: usize,
    pub canonical_anchor: Option<usize>,
}

/// A stored template as read back from its wrapper.
#[derive(Debug, Clone, PartialEq, Eq)]
pub struct Gf3258FreshTglaNode {
    pub total_size: usize,
    pub raw_crc: u32,
    pub raw_template: Vec<u8>,
    pub config_prefix: Vec<u8>,
    pub commit_metadata: Vec<u8>,
    pub trailing_zero_bytes: usize,
}

/// Metadata of a stored template.
#[derive(Debug, Clone, Copy, PartialEq, Eq)]
pub struct Gf3258TglaDiagnostics {
    pub total_size: usize,
    pub raw_length: usize,
    pub raw_crc: u32,
    pub config_prefix_zero: bool,
    pub commit_metadata_zero: bool,
    pub trailing_zero_bytes: usize,
}

/// Only zero bytes.
pub open spec fn all_zero(bytes: Seq<u8>) -> bool {
    forall|i: int| 0 <= i < bytes.len() ==> #[trigger] bytes[i] == 0
}

/// Whether bytes are all zero.
pub(crate) fn is_all_zero(bytes: &Vec<u8>) -> (zero: bool)
    ensures
        zero == all_zero(bytes@),
{
    for i in 0..bytes.len()
        invariant
            forall|j: int| 0 <= j < i ==> #[trigger] bytes@[j] == 0,
    {
        if bytes[i] != 0 {
            assert(bytes@[i as int] != 0);
            return false;
        }
    }
    true
}

/// The diagnostics of a stored template.
pub open spec fn tgla_diagnostics_of(node: Gf3258FreshTglaNode) -> Gf3258TglaDiagnostics {
    Gf3258TglaDiagnostics {
        total_size: node.total_size,
        raw_length: node.raw_template@.len() as usize,
        raw_crc: node.raw_crc,
        config_prefix_zero: all_zero(node.config_prefix@),
        commit_metadata_zero: all_zero(node.commit_metadata@),
        trailing_zero_bytes: node.trailing_zero_bytes,
    }
}

impl Gf3258TglaDiagnostics {
    pub fn from_node(node: &Gf3258FreshTglaNode) -> (diagnostics: Self)
        ensures
            diagnostics == tgla_diagnostics_of(*node),
    {
        Gf3258TglaDiagnostics {
            total_size: node.total_size,
            raw_length: node.raw_template.len(),
            raw_crc: node.raw_crc,
            config_prefix_zero: is_all_zero(&node.config_prefix),
            commit_metadata_zero: is_all_zero(&node.commit_metadata),
            trailing_zero_bytes: node.trailing_zero_bytes,
        }
    }
}

/// A stored template that was read back without error.
#[derive(Debug, Clone, PartialEq, Eq)]
pub struct Gf3258ValidatedTgla {
    pub node: Gf3258FreshTglaNode,
}

impl Gf3258ValidatedTgla {
    pub fn diagnostics(&self) -> (diagnostics: Gf3258TglaDiagnostics)
        ensures
            diagnostics == tgla_diagnostics_of(self.node),
    {
        Gf3258TglaDiagnostics::from_node(&self.node)
    }

    pub fn raw_template(&self) -> (raw: &[u8])
        ensures
            raw@ == self.node.raw_template@,
    {
        self.node.raw_template.as_slice()
    }
}

#[derive(Debug, Clone, PartialEq, Eq)]
pub enum Gf3258EnrollmentWorkflowError {
    PrimaryExtraction(Gf3258PrimaryExtractionError),
    Validity(FeatureError),
    FeatureEnrollment(Gf3258FeatureEnrollmentError),
    /// The message of the template encoder.
    TemplatePersistence(String),
    /// The message of the template storage.
    TemplateStorage(String),
    RawTemplateMismatch,
}

/// A template read back from storage, or the error of that.
pub fn gf3258_validate_fresh_tgla(parsed: Result<Gf3258FreshTglaNode, String>) -> (result: Result<
    Gf3258ValidatedTgla,
    Gf3258EnrollmentWorkflowError,
>)
    ensures
        result == (match parsed {
            Ok(node) => Ok::<Gf3258ValidatedTgla, Gf3258EnrollmentWorkflowError>(
                Gf3258ValidatedTgla { node },
            ),
            Err(message) => Err(Gf3258EnrollmentWorkflowError::TemplateStorage(message)),
        }),
{
    match parsed {
        Ok(node) => Ok(Gf3258ValidatedTgla { node }),
        Err(message) => Err(Gf3258EnrollmentWorkflowError::TemplateStorage(message)),
    }
}

fn same_bytes(a: &[u8], b: &[u8]) -> (same: bool)
    ensures
        same == (a@ == b@),
{
    if a.len() != b.len() {
        return false;
    }
    for i in 0..a.len()
        invariant
            a@.len() == b@.len(),
            forall|j: int| 0 <= j < i ==> #[trigger] a@[j] == b@[j],
    {
        if a[i] != b[i] {
            assert(a@[i as int] != b@[i as int]);
            return false;
        }
    }
    assert(a@ =~= b@);
    true
}

/// What the check of a read-back template against the encoded one comes to.
pub open spec fn read_back_check(
    raw: Seq<u8>,
    parsed: Result<Gf3258FreshTglaNode, String>,
) -> Result<Gf3258TglaDiagnostics, Gf3258EnrollmentWorkflowError> {
    match parsed {
        Err(message) => Err(Gf3258EnrollmentWorkflowError::TemplateStorage(message)),
        Ok(node) => if node.raw_template@ != raw {
            Err(Gf3258EnrollmentWorkflowError::RawTemplateMismatch)
        } else {
            Ok(tgla_diagnostics_of(node))
        },
    }
}

/// Checks that a read-back template is the encoded one.
pub fn gf3258_check_read_back(
    raw: &[u8],
    parsed: Result<Gf3258FreshTglaNode, String>,
) -> (result: Result<Gf3258TglaDiagnostics, Gf3258EnrollmentWorkflowError>)
    ensures
        result == read_back_check(raw@, parsed),
{
    let validated: Gf3258ValidatedTgla = match gf3258_validate_fresh_tgla(parsed) {
        Ok(validated) => validated,
        Err(error) => {
            return Err(error);
        },
    };
    if !same_bytes(validated.raw_template(), raw) {
        return Err(Gf3258EnrollmentWorkflowError::RawTemplateMismatch);
    }
    Ok(validated.diagnostics())
}

/// Encoded bytes of an enrollment.
#[derive(Debug, Clone, PartialEq, Eq)]
pub struct Gf3258EnrollmentArtifacts {
    pub raw_template: Vec<u8>,
    pub tgla_template: Vec<u8>,
    pub tgla: Gf3258TglaDiagnostics,
}

impl Gf3258EnrollmentArtifacts {
    pub fn raw_template(&self) -> (raw: &[u8])
        ensures
            raw@ == self.raw_template@,
    {
        self.raw_template.as_slice()
    }

    pub fn tgla_template(&self) -> (tgla: &[u8])
        ensures
            tgla@ == self.tgla_template@,
    {
        self.tgla_template.as_slice()
    }

    pub fn tgla_diagnostics(&self) -> (diagnostics: Gf3258TglaDiagnostics)
        ensures
            diagnostics == self.tgla,
    {
        self.tgla
    }

    /// Checks that a template read back from storage is the one of these
    /// artifacts.
    pub fn validate_tgla_bytes(&self, parsed: Result<Gf3258FreshTglaNode, String>) -> (result:
        Result<Gf3258TglaDiagnostics, Gf3258EnrollmentWorkflowError>)
        ensures
            result == read_back_check(self.raw_template@, parsed),
    {
        gf3258_check_read_back(self.raw_template.as_slice(), parsed)
    }
}

/// Share of the target in percent, at most a hundred.
pub open spec fn progress_spec(accepted_samples: int) -> int {
    let percent = (accepted_samples * 100) / GF3258_ENROLLMENT_TARGET_SAMPLES as int;
    if percent > 100 {
        100
    } else {
        percent
    }
}

pub fn gf3258_enrollment_progress_percent(accepted_samples: usize) -> (percent: usize)
    requires
        accepted_samples * 100 <= usize::MAX,
    ensures
        percent == progress_spec(accepted_samples as int),
{
    let percent: usize = (accepted_samples * 100) / GF3258_ENROLLMENT_TARGET_SAMPLES;
    if percent > 100 {
        100
    } else {
        percent
    }
}

/// Progress never falls, and it is a hundred exactly from the target on.
pub proof fn lemma_progress(a: int, b: int)
    requires
        0 <= a <= b,
    ensures
        0 <= progress_spec(a) <= progress_spec(b) <= 100,
        progress_spec(a) == 100 <==> a >= GF3258_ENROLLMENT_TARGET_SAMPLES,
{
}

/// An enrollment in progress.
#[derive(Debug, Clone, PartialEq, Eq)]
pub struct Gf3258EnrollmentWorkflow {
    pub template: Gf3258EnrollmentTemplateCore,
}

/// A preprocessed frame whose features are defined: it is rejected before they
/// are extracted, or none of its candidates has a flat histogram.
pub open spec fn preparable(preprocessed: Result<Gf3258PreprocessedFrame, String>) -> bool {
    preprocessed is Ok && preprocessed->Ok_0.diagnostics.pathological_edge_samples == 0
        && preprocessed->Ok_0.pixels@.len() == GF3258_PIXELS
        ==> extraction::source_peaks_defined(preprocessed->Ok_0.pixels@)
}

/// Whether the features of a preprocessed frame are defined.
pub fn is_preparable(preprocessed: &Result<Gf3258PreprocessedFrame, String>) -> (defined: bool)
    ensures
        defined == preparable(*preprocessed),
{
    match preprocessed {
        Err(_) => true,
        Ok(frame) => {
            if frame.diagnostics.pathological_edge_samples != 0 {
                return true;
            }
            match gf3258_extract_unless_flat_from_c2d40_source(frame.pixels.as_slice()) {
                Ok(extraction) => extraction.is_some(),
                Err(_) => true,
            }
        },
    }
}

/// A prepared sample of a frame.
pub open spec fn is_prepared_from<P, S, L>(
    prepared: Gf3258PreparedEnrollmentSample,
    frame: Gf3258PreprocessedFrame,
    maps: &Gf3258MapOps<P, S, L>,
) -> bool where
    P: Fn(&[u8]) -> [u8; 160],
    S: Fn(&[u8], &[u8]) -> [u8; 160],
    L: Fn(&[u8]) -> [u8; 160],
 {
    &&& prepared.preprocess == frame.diagnostics
    &&& extraction::is_source_extraction_of(prepared.extraction, frame.pixels@)
    &&& exists|v: Gf3258EnrollmentValidity| #[trigger]
        validity::is_enrollment_validity_of(v, frame.pixels@) && prepared.validity
            == validity_diagnostics_of(v) && feature_enrollment::is_ready_feature_of(
            prepared.ready,
            prepared.extraction,
            frame.pixels@,
            v,
            (Gf3258PersistentSourceScalars {
                scalar_108: 0,
                c2d40_param3: 0,
                c2d40_param4: 0,
                scalar_13c: 0,
                embedded_state_140: 0,
            }),
            GF3258_NORMAL_SAMPLE_STATUS,
            maps,
        )
}

/// Number of feature points of a source image.
pub open spec fn point_count_of(source: Seq<u8>) -> nat {
    extraction::candidates_of(extraction::detector_source_spec(source)).len()
}

/// The preparation that an outcome of preprocessing calls for.
pub open spec fn is_preparation_of<P, S, L>(
    result: Result<Gf3258EnrollmentPreparation, Gf3258EnrollmentWorkflowError>,
    preprocessed: Result<Gf3258PreprocessedFrame, String>,
    maps: &Gf3258MapOps<P, S, L>,
) -> bool where
    P: Fn(&[u8]) -> [u8; 160],
    S: Fn(&[u8], &[u8]) -> [u8; 160],
    L: Fn(&[u8]) -> [u8; 160],
 {
    match preprocessed {
        Err(message) => result == Ok::<Gf3258EnrollmentPreparation, Gf3258EnrollmentWorkflowError>(
            Gf3258EnrollmentPreparation::Rejected(Gf3258EnrollmentRejection::Preprocess(message)),
        ),
        Ok(frame) => if frame.diagnostics.pathological_edge_samples != 0 {
            result == Ok::<Gf3258EnrollmentPreparation, Gf3258EnrollmentWorkflowError>(
                Gf3258EnrollmentPreparation::Rejected(
                    Gf3258EnrollmentRejection::PathologicalEdge { diagnostics: frame.diagnostics },
                ),
            )
        } else if frame.pixels@.len() != GF3258_PIXELS {
            result == Err::<Gf3258EnrollmentPreparation, Gf3258EnrollmentWorkflowError>(
                Gf3258EnrollmentWorkflowError::PrimaryExtraction(
                    Gf3258PrimaryExtractionError::C7310Source(
                        extraction::pixel_count_error(frame.pixels@.len()),
                    ),
                ),
            )
        } else {
            match point_count_rejection(point_count_of(frame.pixels@)) {
                Some(rejection) => result == Ok::<
                    Gf3258EnrollmentPreparation,
                    Gf3258EnrollmentWorkflowError,
                >(Gf3258EnrollmentPreparation::Rejected(rejection)),
                None => match result {
                    Ok(Gf3258EnrollmentPreparation::Prepared(prepared)) => is_prepared_from(
                        prepared,
                        frame,
                        maps,
                    ),
                    _ => false,
                },
            }
        },
    }
}

/// The commit of a prepared sample reports its addition to the template.
pub open spec fn reports_commit(
    result: Result<Gf3258EnrollmentCommit, Gf3258EnrollmentWorkflowError>,
    outcome: Result<enrollment_add::AddOutcome, enrollment_add::Gf3258EnrollmentAddError>,
    state: enrollment_add::TemplateState,
    ready: Gf3258EnrollmentReadyFeature,
) -> bool {
    match result {
        Ok(commit) => {
            &&& feature_enrollment::reports_step(
                Ok::<Gf3258EnrollmentStepResult, Gf3258FeatureEnrollmentError>(commit.step),
                outcome,
                state.graph,
                ready,
            )
            &&& commit.sample_count == state.points.len()
            &&& commit.progress_percent == progress_spec(state.points.len() as int)
        },
        Err(error) => outcome is Err && error == Gf3258EnrollmentWorkflowError::FeatureEnrollment(
            Gf3258FeatureEnrollmentError::EnrollmentAdd(outcome->Err_0),
        ),
    }
}

/// The template after a commit, and what was reported.
pub open spec fn is_commit_of(
    before: enrollment_add::TemplateState,
    after: enrollment_add::TemplateState,
    m: enrollment_add::EngineModel,
    ready: Gf3258EnrollmentReadyFeature,
    result: Result<Gf3258EnrollmentCommit, Gf3258EnrollmentWorkflowError>,
) -> bool {
    exists|
        points: Seq<Gf3258RegistrationPoint>,
        persistent: Option<enrollment_add::Gf3258PersistentSampleState>,
    | #[trigger]
        feature_enrollment::is_entry_of(points, persistent, ready) && {
            let (state, outcome) = enrollment_add::added(
                before,
                m,
                points,
                feature_enrollment::sample_of(ready),
                persistent,
                feature_enrollment::GF3258_ENROLLMENT_GRAPH_SCORE_THRESHOLD,
            );
            after == state && reports_commit(result, outcome, state, ready)
        }
}

/// Number of canonical samples among the first `n`.
pub open spec fn canonical_count(samples: Seq<Gf3258EnrollmentSample>, n: nat) -> nat
    decreases n,
{
    if n == 0 {
        0
    } else {
        canonical_count(samples, (n - 1) as nat) + (if samples[n - 1].canonical_member {
            1nat
        } else {
            0nat
        })
    }
}

impl Default for Gf3258EnrollmentWorkflow {
    fn default() -> (workflow: Self)
        ensures
            workflow.wf(),
            enrollment_add::is_empty_template(
                workflow.template.state(),
                feature_enrollment::GF3258_ENROLLMENT_STORAGE_CAPACITY,
                feature_enrollment::GF3258_ENROLLMENT_CONFIGURED_MAX_SAMPLES,
            ),
    {
        Gf3258EnrollmentWorkflow::new()
    }
}

impl Gf3258EnrollmentWorkflow {
    /// The template is well formed, and its bound leaves the progress in range.
    pub open spec fn wf(&self) -> bool {
        &&& self.template.wf()
        &&& self.template.state().configured_max_samples
            <= feature_enrollment::GF3258_ENROLLMENT_CONFIGURED_MAX_SAMPLES
    }

    /// An enrollment without samples.
    pub fn new() -> (workflow: Self)
        ensures
            workflow.wf(),
            enrollment_add::is_empty_template(
                workflow.template.state(),
                feature_enrollment::GF3258_ENROLLMENT_STORAGE_CAPACITY,
                feature_enrollment::GF3258_ENROLLMENT_CONFIGURED_MAX_SAMPLES,
            ),
    {
        Gf3258EnrollmentWorkflow { template: gf3258_new_enrollment_template() }
    }

    pub fn sample_count(&self) -> (count: usize)
        ensures
            count == self.template.state().points.len(),
    {
        self.template.sample_count()
    }

    pub fn progress_percent(&self) -> (percent: usize)
        requires
            self.wf(),
        ensures
            percent == progress_spec(self.template.state().points.len() as int),
    {
        gf3258_enrollment_progress_percent(self.sample_count())
    }

    pub fn is_complete(&self) -> (complete: bool)
        ensures
            complete == (self.template.state().points.len() >= GF3258_ENROLLMENT_TARGET_SAMPLES),
    {
        self.sample_count() >= GF3258_ENROLLMENT_TARGET_SAMPLES
    }

    /// Prepares a sample from a preprocessed frame without touching the
    /// template.
    pub fn prepare_raw_frame<P, S, L>(
        &self,
        preprocessed: Result<Gf3258PreprocessedFrame, String>,
        maps: &Gf3258MapOps<P, S, L>,
    ) -> (result: Result<Gf3258EnrollmentPreparation, Gf3258EnrollmentWorkflowError>) where
        P: Fn(&[u8]) -> [u8; 160],
        S: Fn(&[u8], &[u8]) -> [u8; 160],
        L: Fn(&[u8]) -> [u8; 160],

        requires
            maps.deterministic(),
            preparable(preprocessed),
        ensures
            is_preparation_of(result, preprocessed, maps),
    {
        let frame: Gf3258PreprocessedFrame = match preprocessed {
            Ok(frame) => frame,
            Err(message) => {
                return Ok(
                    Gf3258EnrollmentPreparation::Rejected(
                        Gf3258EnrollmentRejection::Preprocess(message),
                    ),
                );
            },
        };
        let preprocess: Gf3258PreprocessDiagnostics = frame.diagnostics;
        if preprocess.pathological_edge_samples != 0 {
            return Ok(
                Gf3258EnrollmentPreparation::Rejected(
                    Gf3258EnrollmentRejection::PathologicalEdge { diagnostics: preprocess },
                ),
            );
        }
        let source: &[u8] = frame.pixels.as_slice();
        let extraction: Gf3258PrimaryFeatureExtraction =
            match gf3258_extract_primary_features_from_c2d40_source(source) {
            Ok(extraction) => extraction,
            Err(error) => {
                return Err(Gf3258EnrollmentWorkflowError::PrimaryExtraction(error));
            },
        };
        match gf3258_enrollment_point_count_rejection(extraction.points.len()) {
            Some(rejection) => {
                return Ok(Gf3258EnrollmentPreparation::Rejected(rejection));
            },
            None => {},
        }
        let valid: Gf3258EnrollmentValidity =
            match gf3258_enrollment_validity_from_c2d40_source(source) {
            Ok(valid) => valid,
            Err(error) => {
                return Err(Gf3258EnrollmentWorkflowError::Validity(error));
            },
        };
        proof {
            feature_enrollment::lemma_binary_map_is_valid(valid.quarter_validity@, true, 320);
        }
        let validity_diagnostics: Gf3258ValidityDiagnostics =
            Gf3258ValidityDiagnostics::from_validity(&valid);
        let ready: Gf3258EnrollmentReadyFeature =
            match Gf3258EnrollmentReadyFeature::from_primary_extraction_from_c2d40_source(
            &extraction,
            source,
            &valid,
            Gf3258PersistentSourceScalars::default(),
            GF3258_NORMAL_SAMPLE_STATUS,
            maps,
        ) {
            Ok(ready) => ready,
            Err(error) => {
                return Err(Gf3258EnrollmentWorkflowError::FeatureEnrollment(error));
            },
        };
        Ok(
            Gf3258EnrollmentPreparation::Prepared(
                Gf3258PreparedEnrollmentSample {
                    preprocess,
                    extraction,
                    validity: validity_diagnostics,
                    ready,
                },
            ),
        )
    }

    /// Takes a prepared sample into the template.
    pub fn commit_prepared<R, S, A, I, C, N>(
        &mut self,
        prepared: Gf3258PreparedEnrollmentSample,
        engine: &Gf3258RegistrationEngine<R, S, A, I, C, N>,
    ) -> (result: Result<Gf3258EnrollmentCommit, Gf3258EnrollmentWorkflowError>) where
        R: Fn(&[Gf3258RegistrationPoint], &[Gf3258RegistrationPoint]) -> Option<
            Gf3258PointRegistration,
        >,
        S: Fn(&[Gf3258EnrollmentSample], usize, usize, Gf3258AffineQ8) ->
            Gf3258RegistrationMapScores,
        A: Fn(usize, i32, i32) -> bool,
        I: Fn(Gf3258AffineQ8) -> Gf3258AffineQ8,
        C: Fn(Gf3258AffineQ8, Gf3258AffineQ8) -> Gf3258AffineQ8,
        N: Fn(&[u8; 160], &[Gf3258AffineQ8]) -> i32,

        requires
            old(self).wf(),
            engine.deterministic(),
        ensures
            final(self).wf(),
            is_commit_of(
                old(self).template.state(),
                final(self).template.state(),
                engine.model(),
                prepared.ready,
                result,
            ),
    {
        let ghost before = self.template.state();
        let ghost ready = prepared.ready;
        let step: Gf3258EnrollmentStepResult = match gf3258_add_extracted_feature(
            &mut self.template,
            prepared.ready,
            engine,
        ) {
            Ok(step) => step,
            Err(error) => {
                return Err(Gf3258EnrollmentWorkflowError::FeatureEnrollment(error));
            },
        };
        let sample_count: usize = self.sample_count();
        Ok(
            Gf3258EnrollmentCommit {
                step,
                sample_count,
                progress_percent: gf3258_enrollment_progress_percent(sample_count),
            },
        )
    }

    /// Prepares a frame and takes it in. Only a frame that is prepared changes
    /// the template.
    pub fn process_raw_frame<P, Q, L, R, S, A, I, C, N>(
        &mut self,
        preprocessed: Result<Gf3258PreprocessedFrame, String>,
        maps: &Gf3258MapOps<P, Q, L>,
        engine: &Gf3258RegistrationEngine<R, S, A, I, C, N>,
    ) -> (result: Result<Gf3258EnrollmentFrameOutcome, Gf3258EnrollmentWorkflowError>) where
        P: Fn(&[u8]) -> [u8; 160],
        Q: Fn(&[u8], &[u8]) -> [u8; 160],
        L: Fn(&[u8]) -> [u8; 160],
        R: Fn(&[Gf3258RegistrationPoint], &[Gf3258RegistrationPoint]) -> Option<
            Gf3258PointRegistration,
        >,
        S: Fn(&[Gf3258EnrollmentSample], usize, usize, Gf3258AffineQ8) ->
            Gf3258RegistrationMapScores,
        A: Fn(usize, i32, i32) -> bool,
        I: Fn(Gf3258AffineQ8) -> Gf3258AffineQ8,
        C: Fn(Gf3258AffineQ8, Gf3258AffineQ8) -> Gf3258AffineQ8,
        N: Fn(&[u8; 160], &[Gf3258AffineQ8]) -> i32,

        requires
            old(self).wf(),
            maps.deterministic(),
            engine.deterministic(),
            preparable(preprocessed),
        ensures
            final(self).wf(),
            exists|preparation: Result<Gf3258EnrollmentPreparation, Gf3258EnrollmentWorkflowError>|
                #[trigger]
                is_preparation_of(preparation, preprocessed, maps) && match preparation {
                    Err(error) => *final(self) == *old(self) && result == Err::<
                        Gf3258EnrollmentFrameOutcome,
                        Gf3258EnrollmentWorkflowError,
                    >(error),
                    Ok(Gf3258EnrollmentPreparation::Rejected(rejection)) => {
                        &&& *final(self) == *old(self)
                        &&& result == Ok::<
                            Gf3258EnrollmentFrameOutcome,
                            Gf3258EnrollmentWorkflowError,
                        >(Gf3258EnrollmentFrameOutcome::Rejected(rejection))
                    },
                    Ok(Gf3258EnrollmentPreparation::Prepared(prepared)) => exists|
                        committed: Result<Gf3258EnrollmentCommit, Gf3258EnrollmentWorkflowError>,
                    | #[trigger]
                        is_commit_of(
                            old(self).template.state(),
                            final(self).template.state(),
                            engine.model(),
                            prepared.ready,
                            committed,
                        ) && result == (match committed {
                            Ok(commit) => Ok::<
                                Gf3258EnrollmentFrameOutcome,
                                Gf3258EnrollmentWorkflowError,
                            >(Gf3258EnrollmentFrameOutcome::Accepted(commit)),
                            Err(error) => Err(error),
                        }),
                },
            result matches Ok(Gf3258EnrollmentFrameOutcome::Rejected(_)) ==> *final(self) == *old(
                self,
            ),
            result matches Ok(Gf3258EnrollmentFrameOutcome::Accepted(commit)) ==> {
                let count = final(self).template.state().points.len();
                &&& count == old(self).template.state().points.len() + 1
                &&& commit.sample_count == count
                &&& commit.progress_percent == progress_spec(count as int)
            },
    {
        let ghost before = self.template.state();
        let preparation: Result<Gf3258EnrollmentPreparation, Gf3258EnrollmentWorkflowError> =
            self.prepare_raw_frame(preprocessed, maps);
        assert(is_preparation_of(preparation, preprocessed, maps));
        match preparation {
            Err(error) => Err(error),
            Ok(Gf3258EnrollmentPreparation::Rejected(rejection)) => Ok(
                Gf3258EnrollmentFrameOutcome::Rejected(rejection),
            ),
            Ok(Gf3258EnrollmentPreparation::Prepared(prepared)) => {
                let ghost ready = prepared.ready;
                let committed: Result<Gf3258EnrollmentCommit, Gf3258EnrollmentWorkflowError> =
                    self.commit_prepared(prepared, engine);
                proof {
                    lemma_commit_counts(
                        before,
                        self.template.state(),
                        engine.model(),
                        ready,
                        committed,
                    );
                }
                match committed {
                    Ok(commit) => Ok(Gf3258EnrollmentFrameOutcome::Accepted(commit)),
                    Err(error) => Err(error),
                }
            },
        }
    }

    /// State of the graph at a glance.
    pub fn graph_diagnostics(&self) -> (diagnostics: Gf3258EnrollmentGraphDiagnostics)
        requires
            self.wf(),
        ensures
            diagnostics == graph_diagnostics_of(self.template.state()),
    {
        let nodes: usize = self.template.sample_count();
        let mut canonical_nodes: usize = 0;
        for i in 0..nodes
            invariant
                self.wf(),
                nodes == self.template.graph.samples@.len(),
                canonical_nodes == canonical_count(self.template.graph.samples@, i as nat),
                canonical_nodes <= i,
        {
            if self.template.graph.samples[i].canonical_member {
                canonical_nodes = canonical_nodes + 1;
            }
        }
        Gf3258EnrollmentGraphDiagnostics {
            nodes,
            nonnegative_relations: self.template.relation_count(),
            canonical_nodes,
            canonical_anchor: if self.template.graph.canonical_established {
                Some(self.template.graph.canonical_anchor)
            } else {
                None
            },
        }
    }

    /// Encodes the template, wraps it for storage, reads the wrapped bytes back,
    /// and returns both only if the template came back unchanged.
    pub fn encode_artifacts<E, W, P>(&self, encode: &E, wrap: &W, parse: &P) -> (result: Result<
        Gf3258EnrollmentArtifacts,
        Gf3258EnrollmentWorkflowError,
    >) where
        E: Fn(&Gf3258EnrollmentTemplateCore) -> Result<Vec<u8>, String>,
        W: Fn(&[u8]) -> Result<Vec<u8>, String>,
        P: Fn(&[u8]) -> Result<Gf3258FreshTglaNode, String>,

        requires
            forall|t: &Gf3258EnrollmentTemplateCore| #[trigger] call_requires(*encode, (t,)),
            forall|raw: &[u8]| #[trigger] call_requires(*wrap, (raw,)),
            forall|tgla: &[u8]| #[trigger] call_requires(*parse, (tgla,)),
        ensures
            exists|encoded: Result<Vec<u8>, String>| #[trigger]
                call_ensures(*encode, (&self.template,), encoded) && match encoded {
                    Err(message) => result == Err::<
                        Gf3258EnrollmentArtifacts,
                        Gf3258EnrollmentWorkflowError,
                    >(Gf3258EnrollmentWorkflowError::TemplatePersistence(message)),
                    Ok(raw) => is_wrapping_of(*wrap, *parse, raw, result),
                },
    {
        let template: &Gf3258EnrollmentTemplateCore = &self.template;
        let encoded: Result<Vec<u8>, String> = encode(template);
        assert(call_ensures(*encode, (&self.template,), encoded));
        let raw_template: Vec<u8> = match encoded {
            Ok(raw) => raw,
            Err(message) => {
                return Err(Gf3258EnrollmentWorkflowError::TemplatePersistence(message));
            },
        };
        let raw_slice: &[u8] = raw_template.as_slice();
        let wrapped: Result<Vec<u8>, String> = wrap(raw_slice);
        assert(call_ensures(*wrap, (raw_slice,), wrapped));
        let tgla_template: Vec<u8> = match wrapped {
            Ok(tgla) => tgla,
            Err(message) => {
                return Err(Gf3258EnrollmentWorkflowError::TemplateStorage(message));
            },
        };
        let tgla_slice: &[u8] = tgla_template.as_slice();
        let parsed: Result<Gf3258FreshTglaNode, String> = parse(tgla_slice);
        assert(call_ensures(*parse, (tgla_slice,), parsed));
        match gf3258_check_read_back(raw_template.as_slice(), parsed) {
            Ok(tgla) => Ok(Gf3258EnrollmentArtifacts { raw_template, tgla_template, tgla }),
            Err(error) => Err(error),
        }
    }
}

/// `result` is what wrapping and reading back the encoded template came to.
pub open spec fn is_wrapping_of<
    W: Fn(&[u8]) -> Result<Vec<u8>, String>,
    P: Fn(&[u8]) -> Result<Gf3258FreshTglaNode, String>,
>(
    wrap: W,
    parse: P,
    raw: Vec<u8>,
    result: Result<Gf3258EnrollmentArtifacts, Gf3258EnrollmentWorkflowError>,
) -> bool {
    exists|raw_slice: &[u8], wrapped: Result<Vec<u8>, String>|
        raw_slice@ == raw@ && #[trigger] call_ensures(wrap, (raw_slice,), wrapped)
            && match wrapped {
            Err(message) => result == Err::<
                Gf3258EnrollmentArtifacts,
                Gf3258EnrollmentWorkflowError,
            >(Gf3258EnrollmentWorkflowError::TemplateStorage(message)),
            Ok(tgla) => exists|
                tgla_slice: &[u8],
                parsed: Result<Gf3258FreshTglaNode, String>,
            |
                tgla_slice@ == tgla@ && #[trigger] call_ensures(parse, (tgla_slice,), parsed)
                    && match read_back_check(raw@, parsed) {
                    Err(error) => result == Err::<
                        Gf3258EnrollmentArtifacts,
                        Gf3258EnrollmentWorkflowError,
                    >(error),
                    Ok(diagnostics) => {
                        &&& result is Ok
                        &&& result->Ok_0.raw_template@ == raw@
                        &&& result->Ok_0.tgla_template@ == tgla@
                        &&& result->Ok_0.tgla == diagnostics
                    },
                },
        }
}

/// Two readings of stored bytes that say the same.
pub open spec fn same_reading(
    a: Result<Gf3258FreshTglaNode, String>,
    b: Result<Gf3258FreshTglaNode, String>,
) -> bool {
    match (a, b) {
        (Ok(a), Ok(b)) => {
            &&& a.total_size == b.total_size
            &&& a.raw_crc == b.raw_crc
            &&& a.raw_template@ == b.raw_template@
            &&& a.config_prefix@ == b.config_prefix@
            &&& a.commit_metadata@ == b.commit_metadata@
            &&& a.trailing_zero_bytes == b.trailing_zero_bytes
        },
        (Err(a), Err(b)) => a@ == b@,
        _ => false,
    }
}

/// `parse` reads equal bytes alike.
pub open spec fn reads_alike<P: Fn(&[u8]) -> Result<Gf3258FreshTglaNode, String>>(parse: P) -> bool {
    forall|
        a: &[u8],
        b: &[u8],
        first: Result<Gf3258FreshTglaNode, String>,
        second: Result<Gf3258FreshTglaNode, String>,
    |
        a@ == b@ && #[trigger] call_ensures(parse, (a,), first) && #[trigger] call_ensures(
            parse,
            (b,),
            second,
        ) ==> same_reading(first, second)
}

/// Artifacts pass their own check: with a parser that reads equal bytes alike,
/// reading the stored bytes back gives the diagnostics that the artifacts hold.
pub proof fn lemma_artifacts_read_back<
    W: Fn(&[u8]) -> Result<Vec<u8>, String>,
    P: Fn(&[u8]) -> Result<Gf3258FreshTglaNode, String>,
>(
    wrap: W,
    parse: P,
    raw: Vec<u8>,
    artifacts: Gf3258EnrollmentArtifacts,
    stored: &[u8],
    parsed: Result<Gf3258FreshTglaNode, String>,
)
    requires
        is_wrapping_of(
            wrap,
            parse,
            raw,
            Ok::<Gf3258EnrollmentArtifacts, Gf3258EnrollmentWorkflowError>(artifacts),
        ),
        reads_alike(parse),
        stored@ == artifacts.tgla_template@,
        call_ensures(parse, (stored,), parsed),
    ensures
        read_back_check(artifacts.raw_template@, parsed) == Ok::<
            Gf3258TglaDiagnostics,
            Gf3258EnrollmentWorkflowError,
        >(artifacts.tgla),
{
}

/// State of a template's graph at a glance.
pub open spec fn graph_diagnostics_of(
    t: enrollment_add::TemplateState,
) -> Gf3258EnrollmentGraphDiagnostics {
    Gf3258EnrollmentGraphDiagnostics {
        nodes: t.points.len() as usize,
        nonnegative_relations: enrollment_add::edge_count(
            t.graph.rows,
            t.points.len(),
            0,
        ) as usize,
        canonical_nodes: canonical_count(t.graph.samples, t.points.len()) as usize,
        canonical_anchor: if t.graph.established {
            Some(t.graph.anchor)
        } else {
            None
        },
    }
}

impl Gf3258EnrollmentWorkflowError {
    pub open spec fn message_spec(&self) -> Seq<char> {
        match self {
            Gf3258EnrollmentWorkflowError::PrimaryExtraction(error) => {
                "GF3258 primary extraction failed: "@ + error.message_spec()
            },
            Gf3258EnrollmentWorkflowError::Validity(error) => {
                "GF3258 enrollment validity failed: "@ + error.message_spec()
            },
            Gf3258EnrollmentWorkflowError::FeatureEnrollment(error) => {
                "GF3258 enrollment bridge failed: "@ + error.message_spec()
            },
            Gf3258EnrollmentWorkflowError::TemplatePersistence(error) => {
                "GF3258 raw-template encoding failed: "@ + error@
            },
            Gf3258EnrollmentWorkflowError::TemplateStorage(error) => {
                "GF3258 TGLA storage failed: "@ + error@
            },
            Gf3258EnrollmentWorkflowError::RawTemplateMismatch => {
                "GF3258 TGLA validation changed the raw algorithm template"@
            },
        }
    }

    /// The message of this error.
    pub fn message(&self) -> (text: String)
        ensures
            text@ == self.message_spec(),
    {
        match self {
            Gf3258EnrollmentWorkflowError::PrimaryExtraction(error) => {
                let mut out: String = "GF3258 primary extraction failed: ".to_owned();
                out.append(error.message().as_str());
                out
            },
            Gf3258EnrollmentWorkflowError::Validity(error) => {
                let mut out: String = "GF3258 enrollment validity failed: ".to_owned();
                out.append(error.message().as_str());
                out
            },
            Gf3258EnrollmentWorkflowError::FeatureEnrollment(error) => {
                let mut out: String = "GF3258 enrollment bridge failed: ".to_owned();
                out.append(error.message().as_str());
                out
            },
            Gf3258EnrollmentWorkflowError::TemplatePersistence(error) => {
                let mut out: String = "GF3258 raw-template encoding failed: ".to_owned();
                out.append(error.as_str());
                out
            },
            Gf3258EnrollmentWorkflowError::TemplateStorage(error) => {
                let mut out: String = "GF3258 TGLA storage failed: ".to_owned();
                out.append(error.as_str());
                out
            },
            Gf3258EnrollmentWorkflowError::RawTemplateMismatch => {
                "GF3258 TGLA validation changed the raw algorithm template".to_owned()
            },
        }
    }
}

proof fn lemma_accepted_previous_bounded(
    attempts: Seq<enrollment_add::Gf3258PreviousRegistrationAttempt>,
    n: nat,
)
    ensures
        enrollment_add::accepted_previous(attempts, n).len() <= n,
    decreases n,
{
    if n > 0 {
        lemma_accepted_previous_bounded(attempts, (n - 1) as nat);
    }
}

/// A successful commit retains exactly one more sample and relates it to earlier
/// ones only; one that fails takes none of the retained samples away.
pub proof fn lemma_commit_counts(
    before: enrollment_add::TemplateState,
    after: enrollment_add::TemplateState,
    m: enrollment_add::EngineModel,
    ready: Gf3258EnrollmentReadyFeature,
    result: Result<Gf3258EnrollmentCommit, Gf3258EnrollmentWorkflowError>,
)
    requires
        is_commit_of(before, after, m, ready, result),
        before.graph.samples.len() == before.points.len(),
        before.points.len() <= usize::MAX,
    ensures
        result is Ok ==> {
            &&& after.points.len() == before.points.len() + 1
            &&& result->Ok_0.sample_count == after.points.len()
            &&& result->Ok_0.step.enrollment.successful_previous@.len() <= before.points.len()
        },
        before.points.len() <= after.points.len() <= before.points.len() + 1,
        after.points.take(before.points.len() as int) == before.points,
{
    let (points, persistent) = choose|
        points: Seq<Gf3258RegistrationPoint>,
        persistent: Option<enrollment_add::Gf3258PersistentSampleState>,
    | #[trigger]
        feature_enrollment::is_entry_of(points, persistent, ready) && {
            let (state, outcome) = enrollment_add::added(
                before,
                m,
                points,
                feature_enrollment::sample_of(ready),
                persistent,
                feature_enrollment::GF3258_ENROLLMENT_GRAPH_SCORE_THRESHOLD,
            );
            after == state && reports_commit(result, outcome, state, ready)
        };
    enrollment_add::lemma_added_sample_is_kept(
        before,
        m,
        points,
        feature_enrollment::sample_of(ready),
        persistent,
        feature_enrollment::GF3258_ENROLLMENT_GRAPH_SCORE_THRESHOLD,
    );
    assert(after.points.take(before.points.len() as int) =~= before.points);
    if before.points.len() < before.configured_max_samples && before.points.len() > 0 {
        let grown = enrollment_add::with_sample(
            before,
            points,
            feature_enrollment::sample_of(ready),
            persistent,
        );
        let attempts = enrollment_add::attempts_of(m, grown.points, grown.graph.samples);
        lemma_accepted_previous_bounded(attempts, attempts.len());
    }
}

} // verus!
