//! The enrollment program: its arguments, the course of a run touch by touch,
//! and what it reports.
use vstd::prelude::*;

use crate::app_error::{AppError, AppErrorKind};
use crate::cli;
use crate::driver;
use crate::driver::{
    Gf3258CaptureDiagnostics, Gf3258DetailedEnrollmentTouch, Gf3258EnrollmentTransaction,
    Gf3258EnrollmentTransactionError, Gf3258SessionError,
};
use crate::enrollment;
use crate::enrollment::{
    Gf3258EnrollmentArtifacts, Gf3258EnrollmentCommit, Gf3258EnrollmentGraphDiagnostics,
    Gf3258EnrollmentPreparation, Gf3258EnrollmentRejection, Gf3258EnrollmentWorkflowError,
    Gf3258FreshTglaNode, Gf3258PreparedEnrollmentSample, Gf3258PreprocessDiagnostics,
    Gf3258PreprocessedFrame, Gf3258ValidityDiagnostics,
    GF3258_ENROLLMENT_POINT_CAPACITY, GF3258_ENROLLMENT_TARGET_SAMPLES,
};
use crate::enrollment_add;
use crate::enrollment_add::{
    Gf3258EnrollmentAddKind, Gf3258EnrollmentTemplateCore, Gf3258RegistrationEngine,
};
use crate::enrollment_graph::Gf3258EnrollmentSample;
use crate::feature::extraction;
use crate::feature::extraction::{
    Gf3258PrimaryExtractionDiagnostics, Gf3258PrimaryFeatureExtraction,
};
use crate::feature::matching;
use crate::feature::matching::{
    gf3258_generate_match_candidates, Gf3258CandidateGeneration, Gf3258CandidateMatcherConfig,
    Gf3258MatcherPoint, Gf3258OwnedMatcherFeature, GF3258_MATCH_SCORE_MATRIX_STRIDE,
};
use crate::feature::GF3258_PIXELS;
use crate::feature_enrollment::{
    GF3258_ENROLLMENT_CONFIGURED_MAX_SAMPLES, GF3258_ENROLLMENT_STORAGE_CAPACITY,
};
use crate::registration::{
    Gf3258AffineQ8, Gf3258MapOps, Gf3258PointRegistration, Gf3258RegistrationMapScores,
    Gf3258RegistrationPoint,
};
use crate::text;

verus! {

/// Most touches of a run, unless the arguments say otherwise.
pub const DEFAULT_MAX_ATTEMPTS: usize = 36;

pub const DEFAULT_RAW_TEMPLATE: &'static str = "gf3258-enrollment.raw";

pub const DEFAULT_TGLA_TEMPLATE: &'static str = "gf3258-enrollment.tgla";

#[derive(Debug, Clone, PartialEq, Eq)]
pub struct EnrollOptions {
    pub max_attempts: usize,
    pub trace_path: Option<String>,
    pub firmware_path: Option<String>,
    pub raw_template_path: String,
    pub tgla_template_path: String,
    /// A stored template to check in place of an enrollment.
    pub load_template_path: Option<String>,
}

/// What the arguments ask for.
#[derive(Debug, Clone, PartialEq, Eq)]
pub enum EnrollInvocation {
    Run(EnrollOptions),
    Help,
}

/// Options by their texts.
pub struct EnrollOptionsView {
    pub max_attempts: usize,
    pub trace: Option<Seq<char>>,
    pub firmware: Option<Seq<char>>,
    pub raw_template: Seq<char>,
    pub tgla_template: Seq<char>,
    pub load_template: Option<Seq<char>>,
}

impl View for EnrollOptions {
    type V = EnrollOptionsView;

    open spec fn view(&self) -> EnrollOptionsView {
        EnrollOptionsView {
            max_attempts: self.max_attempts,
            trace: cli::text_view(self.trace_path),
            firmware: cli::text_view(self.firmware_path),
            raw_template: self.raw_template_path@,
            tgla_template: self.tgla_template_path@,
            load_template: cli::text_view(self.load_template_path),
        }
    }
}

/// What arguments ask for, by its texts.
pub enum EnrollParsed {
    Run(EnrollOptionsView),
    Help,
    /// The message of the error.
    Invalid(Seq<char>),
}

pub open spec fn enroll_parsed(result: Result<EnrollInvocation, AppError>) -> EnrollParsed {
    match result {
        Ok(EnrollInvocation::Run(options)) => EnrollParsed::Run(options@),
        Ok(EnrollInvocation::Help) => EnrollParsed::Help,
        Err(error) => EnrollParsed::Invalid(error.text@),
    }
}

/// An option that takes a file name.
pub open spec fn takes_file(arg: Seq<char>) -> bool {
    ||| arg == "--trace"@
    ||| arg == "--firmware"@
    ||| arg == "--raw-template"@
    ||| arg == "--tgla-template"@
    ||| arg == "--template"@
    ||| arg == "--load-template"@
}

/// An option that takes the largest number of touches.
pub open spec fn takes_attempts(arg: Seq<char>) -> bool {
    arg == "--max-attempts"@ || arg == "--touches"@
}

/// The message of an option without its file name.
pub open spec fn missing_file_message(arg: Seq<char>) -> Seq<char> {
    if arg == "--template"@ {
        "--tgla-template requires a filename"@
    } else {
        arg + " requires a filename"@
    }
}

/// The options after one that takes a file name.
pub open spec fn with_file(
    options: EnrollOptionsView,
    arg: Seq<char>,
    value: Seq<char>,
) -> EnrollOptionsView {
    if arg == "--trace"@ {
        EnrollOptionsView { trace: Some(value), ..options }
    } else if arg == "--firmware"@ {
        EnrollOptionsView { firmware: Some(value), ..options }
    } else if arg == "--raw-template"@ {
        EnrollOptionsView { raw_template: value, ..options }
    } else if arg == "--load-template"@ {
        EnrollOptionsView { load_template: Some(value), ..options }
    } else {
        EnrollOptionsView { tgla_template: value, ..options }
    }
}

/// What the arguments from position `i` on ask for, after what came before.
pub open spec fn enroll_parsed_from(
    args: Seq<Seq<char>>,
    i: nat,
    options: EnrollOptionsView,
) -> EnrollParsed
    decreases args.len() - i,
{
    if i >= args.len() {
        EnrollParsed::Run(options)
    } else {
        let arg = args[i as int];
        if takes_attempts(arg) {
            if i + 1 >= args.len() {
                EnrollParsed::Invalid(arg + " requires a positive integer"@)
            } else {
                match text::parsed_usize(args[(i + 1) as int]) {
                    None => EnrollParsed::Invalid(
                        "invalid "@ + arg + " value: "@ + args[(i + 1) as int],
                    ),
                    Some(max_attempts) => if max_attempts == 0 {
                        EnrollParsed::Invalid(arg + " must be greater than zero"@)
                    } else {
                        enroll_parsed_from(
                            args,
                            i + 2,
                            EnrollOptionsView { max_attempts, ..options },
                        )
                    },
                }
            }
        } else if takes_file(arg) {
            if i + 1 >= args.len() {
                EnrollParsed::Invalid(missing_file_message(arg))
            } else {
                enroll_parsed_from(args, i + 2, with_file(options, arg, args[(i + 1) as int]))
            }
        } else if arg == "-h"@ || arg == "--help"@ {
            EnrollParsed::Help
        } else {
            EnrollParsed::Invalid("unknown argument: "@ + arg)
        }
    }
}

/// The options of a run without arguments.
pub open spec fn default_options() -> EnrollOptionsView {
    EnrollOptionsView {
        max_attempts: DEFAULT_MAX_ATTEMPTS,
        trace: None,
        firmware: None,
        raw_template: DEFAULT_RAW_TEMPLATE@,
        tgla_template: DEFAULT_TGLA_TEMPLATE@,
        load_template: None,
    }
}

/// The number of touches that an option asks for.
fn read_attempts(arg: &str, value: &str) -> (result: Result<usize, AppError>)
    ensures
        match result {
            Ok(attempts) => attempts != 0 && text::parsed_usize(value@) == Some(attempts),
            Err(error) => {
                &&& error.kind == AppErrorKind::InvalidInput
                &&& error.text@ == (match text::parsed_usize(value@) {
                    None => "invalid "@ + arg@ + " value: "@ + value@,
                    Some(_) => arg@ + " must be greater than zero"@,
                })
                &&& text::parsed_usize(value@) is None || text::parsed_usize(value@) == Some(0usize)
            },
        },
{
    match text::parse_usize(value) {
        None => {
            let mut message: String = "invalid ".to_owned();
            message.append(arg);
            message.append(" value: ");
            message.append(value);
            Err(AppError::invalid_input(message))
        },
        Some(attempts) => {
            if attempts == 0 {
                let mut message: String = arg.to_owned();
                message.append(" must be greater than zero");
                return Err(AppError::invalid_input(message));
            }
            Ok(attempts)
        },
    }
}

/// Takes an option with a file name.
fn set_file(options: &mut EnrollOptions, arg: &str, value: String)
    requires
        takes_file(arg@),
    ensures
        final(options)@ == with_file(old(options)@, arg@, value@),
{
    if text::same_text(arg, "--trace") {
        options.trace_path = Some(value);
    } else if text::same_text(arg, "--firmware") {
        options.firmware_path = Some(value);
    } else if text::same_text(arg, "--raw-template") {
        options.raw_template_path = value;
    } else if text::same_text(arg, "--load-template") {
        options.load_template_path = Some(value);
    } else {
        options.tgla_template_path = value;
    }
}

fn is_file_option(arg: &str) -> (file: bool)
    ensures
        file == takes_file(arg@),
{
    text::same_text(arg, "--trace") || text::same_text(arg, "--firmware") || text::same_text(
        arg,
        "--raw-template",
    ) || text::same_text(arg, "--tgla-template") || text::same_text(arg, "--template")
        || text::same_text(arg, "--load-template")
}

/// Parses the arguments of the program, without its name. Of an option that is
/// given twice the last one counts; the first error, or a request for help
/// before it, decides.
pub fn parse_arguments(args: &Vec<String>) -> (result: Result<EnrollInvocation, AppError>)
    ensures
        enroll_parsed(result) == enroll_parsed_from(cli::texts(args@), 0, default_options()),
        result is Err ==> result->Err_0.kind == AppErrorKind::InvalidInput,
{
    let ghost all = cli::texts(args@);
    let mut options: EnrollOptions = EnrollOptions {
        max_attempts: DEFAULT_MAX_ATTEMPTS,
        trace_path: None,
        firmware_path: None,
        raw_template_path: DEFAULT_RAW_TEMPLATE.to_owned(),
        tgla_template_path: DEFAULT_TGLA_TEMPLATE.to_owned(),
        load_template_path: None,
    };
    let mut i: usize = 0;
    while i < args.len()
        invariant
            all == cli::texts(args@),
            i <= args@.len(),
            enroll_parsed_from(all, i as nat, options@) == enroll_parsed_from(
                cli::texts(args@),
                0,
                default_options(),
            ),
        decreases args@.len() - i,
    {
        let arg: &str = args[i].as_str();
        let has_value: bool = args.len() - i >= 2;
        if text::same_text(arg, "--max-attempts") || text::same_text(arg, "--touches") {
            if !has_value {
                let mut message: String = arg.to_owned();
                message.append(" requires a positive integer");
                return Err(AppError::invalid_input(message));
            }
            match read_attempts(arg, args[i + 1].as_str()) {
                Ok(attempts) => {
                    options.max_attempts = attempts;
                },
                Err(error) => {
                    return Err(error);
                },
            }
            i = i + 2;
        } else if is_file_option(arg) {
            if !has_value {
                let named: &str = if text::same_text(arg, "--template") {
                    "--tgla-template"
                } else {
                    arg
                };
                let mut message: String = named.to_owned();
                message.append(" requires a filename");
                proof {
                    reveal_strlit("--tgla-template");
                    reveal_strlit(" requires a filename");
                    reveal_strlit("--tgla-template requires a filename");
                    assert("--tgla-template"@ + " requires a filename"@
                        =~= "--tgla-template requires a filename"@);
                }
                return Err(AppError::invalid_input(message));
            }
            set_file(&mut options, arg, args[i + 1].clone());
            i = i + 2;
        } else if text::same_text(arg, "-h") || text::same_text(arg, "--help") {
            return Ok(EnrollInvocation::Help);
        } else {
            let mut message: String = "unknown argument: ".to_owned();
            message.append(arg);
            return Err(AppError::invalid_input(message));
        }
    }
    Ok(EnrollInvocation::Run(options))
}

/// Whether a run may end before its target: it has too few touches, and is no
/// check of a stored template.
pub fn is_below_target(options: &EnrollOptions) -> (below: bool)
    ensures
        below == (options.load_template_path is None && options.max_attempts
            < GF3258_ENROLLMENT_TARGET_SAMPLES),
{
    options.load_template_path.is_none() && options.max_attempts
        < GF3258_ENROLLMENT_TARGET_SAMPLES
}

/// The matcher settings of a first pass.
pub open spec fn diagnostic_config_spec() -> Gf3258CandidateMatcherConfig {
    Gf3258CandidateMatcherConfig {
        first_half_hamming_max: 23,
        descriptor_mode_hamming_max: 47,
        ambiguity_best_multiplier: 40,
        ambiguity_second_multiplier: 38,
    }
}

pub fn diagnostic_config() -> (config: Gf3258CandidateMatcherConfig)
    ensures
        config == diagnostic_config_spec(),
{
    Gf3258CandidateMatcherConfig {
        first_half_hamming_max: 23,
        descriptor_mode_hamming_max: 47,
        ambiguity_best_multiplier: 40,
        ambiguity_second_multiplier: 38,
    }
}

/// A feature that the matcher takes without an error.
pub open spec fn is_matchable(feature: Gf3258OwnedMatcherFeature) -> bool {
    feature.polarity_split <= feature.points@.len() <= GF3258_ENROLLMENT_POINT_CAPACITY
}

/// Whether a correspondence was found in the stored descriptor mode.
pub open spec fn is_normal_mode(g: Gf3258CandidateGeneration, i: int) -> bool {
    g.pair_normal_mode_matrix@[g.selected@[i].enrolled_index * GF3258_MATCH_SCORE_MATRIX_STRIDE
        + g.selected@[i].live_index]
}

/// Number of the first `n` correspondences that were found in the stored
/// descriptor mode.
pub open spec fn normal_mode_count(g: Gf3258CandidateGeneration, n: nat) -> nat
    decreases n,
{
    if n == 0 {
        0
    } else {
        normal_mode_count(g, (n - 1) as nat) + if is_normal_mode(g, n - 1) {
            1nat
        } else {
            0nat
        }
    }
}

/// A live feature against one retained sample. `G` is the geometry of their
/// correspondences.
#[derive(Debug, Clone, PartialEq, Eq)]
pub struct MatcherDiagnostic<G> {
    pub sample_index: usize,
    pub enrolled_points: usize,
    pub enrolled_split: usize,
    pub candidate_pairs: usize,
    pub normal_mode: usize,
    pub alternate_mode: usize,
    pub geometry: G,
}

/// The message of a geometry that failed.
pub open spec fn geometry_message(sample_index: usize, message: Seq<char>) -> Seq<char> {
    "matcher geometry failed for retained sample "@ + text::decimal(sample_index as nat) + ": "@
        + message
}

/// `g` is the candidate generation of a retained sample and a live feature.
pub open spec fn is_diagnostic_generation(
    g: Gf3258CandidateGeneration,
    enrolled: Gf3258OwnedMatcherFeature,
    live: Gf3258OwnedMatcherFeature,
) -> bool {
    matching::is_generation_of(
        g,
        matching::enrolled_sides(enrolled.points@),
        enrolled.polarity_split as int,
        live.points@,
        live.polarity_split as int,
        diagnostic_config_spec(),
    )
}

/// `result` compares a live feature with one retained sample.
pub open spec fn is_comparison_of<
    G,
    F: Fn(&[Gf3258MatcherPoint], &[Gf3258MatcherPoint], &[[i32; 2]; 31]) -> Result<G, String>,
>(
    result: Result<MatcherDiagnostic<G>, AppError>,
    sample_index: usize,
    enrolled: Gf3258OwnedMatcherFeature,
    live: Gf3258OwnedMatcherFeature,
    geometry: F,
) -> bool {
    exists|
        g: Gf3258CandidateGeneration,
        a: &[Gf3258MatcherPoint],
        b: &[Gf3258MatcherPoint],
        measured: Result<G, String>,
    |
        #![trigger call_ensures(geometry, (a, b, &g.pair_slots), measured)]
        {
            &&& is_diagnostic_generation(g, enrolled, live)
            &&& a@ == enrolled.points@
            &&& b@ == live.points@
            &&& call_ensures(geometry, (a, b, &g.pair_slots), measured)
            &&& match measured {
                Ok(measured) => {
                    let normal = normal_mode_count(g, g.selected@.len());
                    result == Ok::<MatcherDiagnostic<G>, AppError>(
                        MatcherDiagnostic {
                            sample_index,
                            enrolled_points: enrolled.points@.len() as usize,
                            enrolled_split: enrolled.polarity_split,
                            candidate_pairs: g.selected@.len() as usize,
                            normal_mode: normal as usize,
                            alternate_mode: (g.selected@.len() - normal) as usize,
                            geometry: measured,
                        },
                    )
                },
                Err(message) => {
                    &&& result is Err
                    &&& result->Err_0.kind == AppErrorKind::InvalidData
                    &&& result->Err_0.text@ == geometry_message(sample_index, message@)
                },
            }
        }
}

/// Number of correspondences that were found in the stored descriptor mode.
fn count_normal_mode(
    g: &Gf3258CandidateGeneration,
    Ghost(enrolled): Ghost<nat>,
) -> (count: usize)
    requires
        enrolled <= GF3258_ENROLLMENT_POINT_CAPACITY,
        g.pair_normal_mode_matrix@.len() == enrolled * GF3258_MATCH_SCORE_MATRIX_STRIDE,
        forall|i: int|
            0 <= i < g.selected@.len() ==> {
                &&& 0 <= (#[trigger] g.selected@[i]).enrolled_index < enrolled
                &&& 0 <= g.selected@[i].live_index < GF3258_MATCH_SCORE_MATRIX_STRIDE
            },
    ensures
        count == normal_mode_count(*g, g.selected@.len()),
        count <= g.selected@.len(),
{
    let mut count: usize = 0;
    for i in 0..g.selected.len()
        invariant
            enrolled <= GF3258_ENROLLMENT_POINT_CAPACITY,
            g.pair_normal_mode_matrix@.len() == enrolled * GF3258_MATCH_SCORE_MATRIX_STRIDE,
            forall|i: int|
                0 <= i < g.selected@.len() ==> {
                    &&& 0 <= (#[trigger] g.selected@[i]).enrolled_index < enrolled
                    &&& 0 <= g.selected@[i].live_index < GF3258_MATCH_SCORE_MATRIX_STRIDE
                },
            count == normal_mode_count(*g, i as nat),
            count <= i,
    {
        let row: usize = g.selected[i].enrolled_index as usize;
        let column: usize = g.selected[i].live_index as usize;
        if g.pair_normal_mode_matrix[row * GF3258_MATCH_SCORE_MATRIX_STRIDE + column] {
            count = count + 1;
        }
    }
    count
}

/// Compares a live feature with one retained sample.
pub fn compare_with_sample<G, F>(
    sample_index: usize,
    enrolled: &Gf3258OwnedMatcherFeature,
    live: &Gf3258OwnedMatcherFeature,
    geometry: &F,
) -> (result: Result<MatcherDiagnostic<G>, AppError>) where
    F: Fn(&[Gf3258MatcherPoint], &[Gf3258MatcherPoint], &[[i32; 2]; 31]) -> Result<G, String>,

    requires
        is_matchable(*enrolled),
        is_matchable(*live),
        forall|a: &[Gf3258MatcherPoint], b: &[Gf3258MatcherPoint], slots: &[[i32; 2]; 31]|
            #[trigger] call_requires(*geometry, (a, b, slots)),
    ensures
        is_comparison_of(result, sample_index, *enrolled, *live, *geometry),
{
    let candidates: Gf3258CandidateGeneration = match gf3258_generate_match_candidates(
        enrolled.as_feature_set(),
        live.as_feature_set(),
        diagnostic_config(),
    ) {
        Ok(candidates) => candidates,
        Err(_) => vstd::pervasive::unreached(),
    };
    proof {
        matching::lemma_correspondences_in_range(
            candidates,
            matching::enrolled_sides(enrolled.points@),
            enrolled.polarity_split as int,
            live.points@,
            live.polarity_split as int,
            diagnostic_config_spec(),
        );
    }
    let a: &[Gf3258MatcherPoint] = enrolled.points.as_slice();
    let b: &[Gf3258MatcherPoint] = live.points.as_slice();
    let measured: Result<G, String> = geometry(a, b, &candidates.pair_slots);
    assert(call_ensures(*geometry, (a, b, &candidates.pair_slots), measured));
    match measured {
        Ok(measured) => {
            let normal_mode: usize = count_normal_mode(
                &candidates,
                Ghost(enrolled.points@.len()),
            );
            Ok(
                MatcherDiagnostic {
                    sample_index,
                    enrolled_points: enrolled.points.len(),
                    enrolled_split: enrolled.polarity_split,
                    candidate_pairs: candidates.selected.len(),
                    normal_mode,
                    alternate_mode: candidates.selected.len() - normal_mode,
                    geometry: measured,
                },
            )
        },
        Err(message) => {
            let mut text: String = "matcher geometry failed for retained sample ".to_owned();
            text::push_decimal(&mut text, sample_index as u64);
            text.append(": ");
            text.append(message.as_str());
            Err(AppError::invalid_data(text))
        },
    }
}

/// The comparison with a retained sample succeeds.
pub open spec fn compares_with<
    G,
    F: Fn(&[Gf3258MatcherPoint], &[Gf3258MatcherPoint], &[[i32; 2]; 31]) -> Result<G, String>,
>(
    i: int,
    retained: Seq<Gf3258OwnedMatcherFeature>,
    live: Gf3258OwnedMatcherFeature,
    geometry: F,
) -> bool {
    exists|diagnostic: MatcherDiagnostic<G>|
        is_comparison_of(Ok(diagnostic), i as usize, retained[i], live, geometry)
}

/// The comparison with retained sample `n` is the first that fails.
pub open spec fn fails_first_at<
    G,
    F: Fn(&[Gf3258MatcherPoint], &[Gf3258MatcherPoint], &[[i32; 2]; 31]) -> Result<G, String>,
>(
    error: AppError,
    n: int,
    retained: Seq<Gf3258OwnedMatcherFeature>,
    live: Gf3258OwnedMatcherFeature,
    geometry: F,
) -> bool {
    &&& 0 <= n < retained.len()
    &&& is_comparison_of::<G, F>(Err(error), n as usize, retained[n], live, geometry)
    &&& forall|i: int| 0 <= i < n ==> #[trigger] compares_with::<G, F>(i, retained, live, geometry)
}

/// `result` compares a live feature with every retained sample, in order, up to
/// the first that fails.
pub open spec fn are_comparisons_of<
    G,
    F: Fn(&[Gf3258MatcherPoint], &[Gf3258MatcherPoint], &[[i32; 2]; 31]) -> Result<G, String>,
>(
    result: Result<Vec<MatcherDiagnostic<G>>, AppError>,
    retained: Seq<Gf3258OwnedMatcherFeature>,
    live: Gf3258OwnedMatcherFeature,
    geometry: F,
) -> bool {
    match result {
        Ok(list) => {
            &&& list@.len() == retained.len()
            &&& forall|i: int|
                0 <= i < retained.len() ==> is_comparison_of(
                    Ok(#[trigger] list@[i]),
                    i as usize,
                    retained[i],
                    live,
                    geometry,
                )
        },
        Err(error) => exists|n: int| #[trigger] fails_first_at::<G, F>(error, n, retained, live, geometry),
    }
}

/// Compares a live feature with every retained sample.
pub fn compare_with_retained<G, F>(
    retained: &Vec<Gf3258OwnedMatcherFeature>,
    live: &Gf3258OwnedMatcherFeature,
    geometry: &F,
) -> (result: Result<Vec<MatcherDiagnostic<G>>, AppError>) where
    F: Fn(&[Gf3258MatcherPoint], &[Gf3258MatcherPoint], &[[i32; 2]; 31]) -> Result<G, String>,

    requires
        forall|i: int| 0 <= i < retained@.len() ==> is_matchable(#[trigger] retained@[i]),
        is_matchable(*live),
        forall|a: &[Gf3258MatcherPoint], b: &[Gf3258MatcherPoint], slots: &[[i32; 2]; 31]|
            #[trigger] call_requires(*geometry, (a, b, slots)),
    ensures
        are_comparisons_of(result, retained@, *live, *geometry),
{
    let mut list: Vec<MatcherDiagnostic<G>> = Vec::new();
    for i in 0..retained.len()
        invariant
            forall|i: int| 0 <= i < retained@.len() ==> is_matchable(#[trigger] retained@[i]),
            is_matchable(*live),
            forall|a: &[Gf3258MatcherPoint], b: &[Gf3258MatcherPoint], slots: &[[i32; 2]; 31]|
                #[trigger] call_requires(*geometry, (a, b, slots)),
            list@.len() == i,
            forall|j: int|
                0 <= j < i ==> is_comparison_of(
                    Ok(#[trigger] list@[j]),
                    j as usize,
                    retained@[j],
                    *live,
                    *geometry,
                ),
    {
        match compare_with_sample(i, &retained[i], live, geometry) {
            Ok(diagnostic) => {
                list.push(diagnostic);
            },
            Err(error) => {
                assert forall|j: int| 0 <= j < i implies #[trigger] compares_with::<G, F>(
                    j,
                    retained@,
                    *live,
                    *geometry,
                ) by {
                    assert(is_comparison_of(
                        Ok(list@[j]),
                        j as usize,
                        retained@[j],
                        *live,
                        *geometry,
                    ));
                }
                assert(fails_first_at::<G, F>(error, i as int, retained@, *live, *geometry));
                return Err(error);
            },
        }
    }
    Ok(list)
}

/// The matcher's view of an extraction.
pub open spec fn is_matcher_feature_of(
    feature: Gf3258OwnedMatcherFeature,
    extraction: Gf3258PrimaryFeatureExtraction,
) -> bool {
    let classes = matching::extracted_polarities(extraction.points@);
    let (order, split) = matching::partition_spec(classes);
    &&& feature.points@.len() == extraction.points@.len()
    &&& feature.polarity_split == split
    &&& split <= feature.points@.len()
    &&& forall|i: int|
        0 <= i < feature.points@.len() ==> matching::is_primary_projection(
            #[trigger] feature.points@[i],
            extraction.points@[order[i]],
            classes[order[i]],
        )
}

/// What is reported of a retained sample.
#[derive(Debug, Clone, PartialEq, Eq)]
pub struct RetainedTouch<G> {
    pub preprocess: Gf3258PreprocessDiagnostics,
    pub features: Gf3258PrimaryExtractionDiagnostics,
    pub validity: Gf3258ValidityDiagnostics,
    /// The comparisons with the samples that were retained before.
    pub comparisons: Vec<MatcherDiagnostic<G>>,
    pub commit: Gf3258EnrollmentCommit,
}

/// The outcome of one touch.
#[derive(Debug, Clone, PartialEq, Eq)]
pub enum TouchOutcome<G> {
    Rejected(Gf3258EnrollmentRejection),
    Retained(RetainedTouch<G>),
}

#[derive(Debug, Clone, PartialEq, Eq)]
pub struct TouchReport<G> {
    pub capture: Gf3258CaptureDiagnostics,
    pub outcome: TouchOutcome<G>,
}

/// What ends a run.
#[derive(Debug, Clone, PartialEq, Eq)]
pub enum EnrollRunError {
    Transaction(Gf3258EnrollmentTransactionError),
    App(AppError),
}

/// Summary of a run.
#[derive(Debug, Clone, PartialEq, Eq)]
pub struct EnrollSummary {
    pub attempted_touches: usize,
    pub accepted_samples: usize,
    pub progress_percent: usize,
    pub rejected_pathological: usize,
    pub rejected_oversized_points: usize,
    pub accepted_live_relations: usize,
    pub graph: Gf3258EnrollmentGraphDiagnostics,
}

/// A run of the enrollment program.
#[derive(Debug, Clone, PartialEq, Eq)]
pub struct EnrollmentRun {
    pub max_attempts: usize,
    pub enrollment: Gf3258EnrollmentTransaction,
    /// The retained samples as the matcher sees them.
    pub retained: Vec<Gf3258OwnedMatcherFeature>,
    pub attempted_touches: usize,
    pub rejected_pathological: usize,
    pub rejected_oversized_points: usize,
    pub accepted_live_relations: usize,
}

/// Number of relations to earlier samples that a commit accepted.
pub open spec fn accepted_relations(commit: Gf3258EnrollmentCommit) -> nat {
    if commit.step.enrollment.kind == Gf3258EnrollmentAddKind::Integrated {
        commit.step.enrollment.successful_previous@.len()
    } else {
        0
    }
}

/// The counts of a run after a rejection.
pub open spec fn counts_rejection(
    before: EnrollmentRun,
    after: EnrollmentRun,
    rejection: Gf3258EnrollmentRejection,
) -> bool {
    &&& after.rejected_pathological == before.rejected_pathological + (if rejection is
        PathologicalEdge {
        1int
    } else {
        0int
    })
    &&& after.rejected_oversized_points == before.rejected_oversized_points + (if rejection is
        TooManyPoints {
        1int
    } else {
        0int
    })
    &&& after.accepted_live_relations == before.accepted_live_relations
    &&& after.retained@ == before.retained@
}

/// The counts of a run are the same.
pub open spec fn same_counts(before: EnrollmentRun, after: EnrollmentRun) -> bool {
    &&& after.rejected_pathological == before.rejected_pathological
    &&& after.rejected_oversized_points == before.rejected_oversized_points
    &&& after.accepted_live_relations == before.accepted_live_relations
    &&& after.retained@ == before.retained@
}

/// `result` and `after` are what a prepared sample came to: it is compared with
/// the retained ones before it is committed, and joins them afterwards.
pub open spec fn is_retention_of<
    G,
    F: Fn(&[Gf3258MatcherPoint], &[Gf3258MatcherPoint], &[[i32; 2]; 31]) -> Result<G, String>,
>(
    before: EnrollmentRun,
    after: EnrollmentRun,
    result: Result<RetainedTouch<G>, EnrollRunError>,
    prepared: Gf3258PreparedEnrollmentSample,
    model: enrollment_add::EngineModel,
    geometry: F,
) -> bool {
    exists|
        live: Gf3258OwnedMatcherFeature,
        compared: Result<Vec<MatcherDiagnostic<G>>, AppError>,
    |
        #![trigger are_comparisons_of(compared, before.retained@, live, geometry)]
        {
            &&& is_matcher_feature_of(live, prepared.extraction)
            &&& are_comparisons_of(compared, before.retained@, live, geometry)
            &&& match compared {
                Err(error) => {
                    &&& result == Err::<RetainedTouch<G>, EnrollRunError>(EnrollRunError::App(error))
                    &&& after.enrollment == before.enrollment
                    &&& same_counts(before, after)
                },
                Ok(comparisons) => exists|
                    committed: Result<Gf3258EnrollmentCommit, Gf3258EnrollmentWorkflowError>,
                | #[trigger]
                    enrollment::is_commit_of(
                        before.enrollment.workflow.template.state(),
                        after.enrollment.workflow.template.state(),
                        model,
                        prepared.ready,
                        committed,
                    ) && match committed {
                        Err(error) => {
                            &&& result == Err::<RetainedTouch<G>, EnrollRunError>(
                                EnrollRunError::Transaction(
                                    Gf3258EnrollmentTransactionError::Workflow(error),
                                ),
                            )
                            &&& same_counts(before, after)
                        },
                        Ok(commit) => {
                            &&& result is Ok
                            &&& result->Ok_0.preprocess == prepared.preprocess
                            &&& is_features_of(result->Ok_0.features, prepared.extraction)
                            &&& result->Ok_0.validity == prepared.validity
                            &&& result->Ok_0.comparisons == comparisons
                            &&& result->Ok_0.commit == commit
                            &&& after.retained@ == before.retained@.push(live)
                            &&& after.accepted_live_relations == before.accepted_live_relations
                                + accepted_relations(commit)
                            &&& after.rejected_pathological == before.rejected_pathological
                            &&& after.rejected_oversized_points == before.rejected_oversized_points
                        },
                    },
            }
        }
}

/// The diagnostics of an extraction.
pub open spec fn is_features_of(
    d: Gf3258PrimaryExtractionDiagnostics,
    extraction: Gf3258PrimaryFeatureExtraction,
) -> bool {
    let outcomes = extraction.refinement_outcomes@;
    &&& d.raw_extrema_count == outcomes.len()
    &&& d.refined_accepted_count == extraction::accepted_count(outcomes, outcomes.len())
    &&& d.refined_accepted_count + d.refinement_fallback_count == d.raw_extrema_count
    &&& d.primary_point_count == extraction.points@.len()
}

impl EnrollmentRun {
    /// The counts fit together, and every retained sample can be compared.
    pub open spec fn wf(&self) -> bool {
        &&& self.enrollment.wf()
        &&& self.attempted_touches <= self.max_attempts
        &&& self.rejected_pathological <= self.attempted_touches
        &&& self.rejected_oversized_points <= self.attempted_touches
        &&& self.accepted_live_relations <= self.enrollment.samples()
            * GF3258_ENROLLMENT_CONFIGURED_MAX_SAMPLES
        &&& forall|i: int| 0 <= i < self.retained@.len() ==> is_matchable(#[trigger] self.retained@[i])
    }

    /// Another touch is wanted.
    pub open spec fn is_open(&self) -> bool {
        &&& self.enrollment.samples() < GF3258_ENROLLMENT_TARGET_SAMPLES
        &&& self.attempted_touches < self.max_attempts
    }

    /// A run without touches.
    pub fn new(max_attempts: usize) -> (run: Self)
        ensures
            run.wf(),
            run.max_attempts == max_attempts,
            enrollment_add::is_empty_template(
                run.enrollment.workflow.template.state(),
                GF3258_ENROLLMENT_STORAGE_CAPACITY,
                GF3258_ENROLLMENT_CONFIGURED_MAX_SAMPLES,
            ),
            run.retained@.len() == 0,
            run.attempted_touches == 0,
            run.rejected_pathological == 0,
            run.rejected_oversized_points == 0,
            run.accepted_live_relations == 0,
    {
        EnrollmentRun {
            max_attempts,
            enrollment: Gf3258EnrollmentTransaction::new(),
            retained: Vec::new(),
            attempted_touches: 0,
            rejected_pathological: 0,
            rejected_oversized_points: 0,
            accepted_live_relations: 0,
        }
    }

    /// Whether another touch is wanted: the target is not reached, and touches
    /// are left.
    pub fn wants_touch(&self) -> (wanted: bool)
        ensures
            wanted == self.is_open(),
    {
        !self.enrollment.is_complete() && self.attempted_touches < self.max_attempts
    }

    /// Compares a prepared sample with the retained ones and commits it.
    fn retain<G, F, R, S, A, I, C, N>(
        &mut self,
        prepared: Gf3258PreparedEnrollmentSample,
        engine: &Gf3258RegistrationEngine<R, S, A, I, C, N>,
        geometry: &F,
    ) -> (result: Result<RetainedTouch<G>, EnrollRunError>) where
        F: Fn(&[Gf3258MatcherPoint], &[Gf3258MatcherPoint], &[[i32; 2]; 31]) -> Result<G, String>,
        R: Fn(&[Gf3258RegistrationPoint], &[Gf3258RegistrationPoint]) -> Option<
            Gf3258PointRegistration,
        >,
        S: Fn(&[Gf3258EnrollmentSample], usize, usize, Gf3258AffineQ8) ->
            Gf3258RegistrationMapScores,
        A: Fn(usize, i32, i32) -> bool,
        I: Fn(Gf3258AffineQ8) -> Gf3258AffineQ8,
        C: Fn(Gf3258AffineQ8, Gf3258AffineQ8) -> Gf3258AffineQ8,
        N: Fn(&[u8; 160], &[Gf3258AffineQ8]) -> i32,

        requires
            old(self).wf(),
            engine.deterministic(),
            prepared.extraction.points@.len() <= GF3258_ENROLLMENT_POINT_CAPACITY,
            forall|a: &[Gf3258MatcherPoint], b: &[Gf3258MatcherPoint], slots: &[[i32; 2]; 31]|
                #[trigger] call_requires(*geometry, (a, b, slots)),
        ensures
            final(self).wf(),
            final(self).max_attempts == old(self).max_attempts,
            final(self).attempted_touches == old(self).attempted_touches,
            is_retention_of(
                *old(self),
                *final(self),
                result,
                prepared,
                engine.model(),
                *geometry,
            ),
    {
        let ghost before = *self;
        let ghost whole = prepared;
        let preprocess: Gf3258PreprocessDiagnostics = prepared.preprocess_diagnostics();
        let features: Gf3258PrimaryExtractionDiagnostics = prepared.extraction().diagnostics();
        let validity: Gf3258ValidityDiagnostics = prepared.validity_diagnostics();
        let live: Gf3258OwnedMatcherFeature =
            Gf3258OwnedMatcherFeature::from_primary_extraction(prepared.extraction());
        assert(is_matcher_feature_of(live, prepared.extraction));
        let compared: Result<Vec<MatcherDiagnostic<G>>, AppError> = compare_with_retained(
            &self.retained,
            &live,
            geometry,
        );
        assert(are_comparisons_of(compared, before.retained@, live, *geometry));
        let comparisons: Vec<MatcherDiagnostic<G>> = match compared {
            Ok(comparisons) => comparisons,
            Err(error) => {
                return Err(EnrollRunError::App(error));
            },
        };
        let result: Result<Gf3258EnrollmentCommit, Gf3258EnrollmentTransactionError> =
            self.enrollment.commit_prepared(prepared, engine);
        let ghost after_state = self.enrollment.workflow.template.state();
        let ghost committed = choose|
            committed: Result<Gf3258EnrollmentCommit, Gf3258EnrollmentWorkflowError>,
        | #[trigger]
            enrollment::is_commit_of(
                before.enrollment.workflow.template.state(),
                after_state,
                engine.model(),
                whole.ready,
                committed,
            ) && result == (match committed {
                Ok(commit) => Ok::<Gf3258EnrollmentCommit, Gf3258EnrollmentTransactionError>(
                    commit,
                ),
                Err(error) => Err(Gf3258EnrollmentTransactionError::Workflow(error)),
            });
        proof {
            enrollment::lemma_commit_counts(
                before.enrollment.workflow.template.state(),
                after_state,
                engine.model(),
                whole.ready,
                committed,
            );
        }
        let commit: Gf3258EnrollmentCommit = match result {
            Ok(commit) => commit,
            Err(error) => {
                return Err(EnrollRunError::Transaction(error));
            },
        };
        self.retained.push(live);
        match commit.step.enrollment.kind {
            Gf3258EnrollmentAddKind::Integrated => {
                self.accepted_live_relations =
                self.accepted_live_relations + commit.step.enrollment.successful_previous.len();
            },
            _ => {},
        }
        Ok(RetainedTouch { preprocess, features, validity, comparisons, commit })
    }
}

impl EnrollmentRun {
    /// Takes one captured and preprocessed touch. A failed capture ends the run;
    /// a rejected one is counted and changes nothing else.
    pub fn touch<G, F, P, Q, L, R, S, A, I, C, N>(
        &mut self,
        captured: Result<Gf3258CaptureDiagnostics, Gf3258SessionError>,
        preprocessed: Result<Gf3258PreprocessedFrame, String>,
        maps: &Gf3258MapOps<P, Q, L>,
        engine: &Gf3258RegistrationEngine<R, S, A, I, C, N>,
        geometry: &F,
    ) -> (result: Result<TouchReport<G>, EnrollRunError>) where
        F: Fn(&[Gf3258MatcherPoint], &[Gf3258MatcherPoint], &[[i32; 2]; 31]) -> Result<G, String>,
        P: Fn(&[u8]) -> [u8; 160],
        Q: Fn(&[u8], &[u8]) -> [u8; 160],
        L: Fn(&[u8]) -> [u8; 160],
        R: Fn(&[Gf3258RegistrationPoint], &[Gf3258RegistrationPoint]) -> Option<
            Gf3258PointRegistration,
        >,
        S: Fn(&[Gf3258EnrollmentSample], usize, usize, Gf3258AffineQ8) ->
            Gf3258RegistrationMapScores,
        A: Fn(usize, i32, i32) -> bool,
        I: Fn(Gf3258AffineQ8) -> Gf3258AffineQ8,
        C: Fn(Gf3258AffineQ8, Gf3258AffineQ8) -> Gf3258AffineQ8,
        N: Fn(&[u8; 160], &[Gf3258AffineQ8]) -> i32,

        requires
            old(self).wf(),
            old(self).is_open(),
            maps.deterministic(),
            engine.deterministic(),
            enrollment::preparable(preprocessed),
            forall|a: &[Gf3258MatcherPoint], b: &[Gf3258MatcherPoint], slots: &[[i32; 2]; 31]|
                #[trigger] call_requires(*geometry, (a, b, slots)),
        ensures
            final(self).wf(),
            final(self).max_attempts == old(self).max_attempts,
            final(self).attempted_touches == old(self).attempted_touches + 1,
            match captured {
                Err(error) => {
                    &&& result == Err::<TouchReport<G>, EnrollRunError>(
                        EnrollRunError::Transaction(
                            Gf3258EnrollmentTransactionError::Session(error),
                        ),
                    )
                    &&& final(self).enrollment == old(self).enrollment
                    &&& same_counts(*old(self), *final(self))
                },
                Ok(capture) => exists|
                    preparation: Result<
                        Gf3258EnrollmentPreparation,
                        Gf3258EnrollmentWorkflowError,
                    >,
                | #[trigger]
                    enrollment::is_preparation_of(preparation, preprocessed, maps)
                        && match preparation {
                        Err(error) => {
                            &&& result == Err::<TouchReport<G>, EnrollRunError>(
                                EnrollRunError::Transaction(
                                    Gf3258EnrollmentTransactionError::Workflow(error),
                                ),
                            )
                            &&& final(self).enrollment == old(self).enrollment
                            &&& same_counts(*old(self), *final(self))
                        },
                        Ok(Gf3258EnrollmentPreparation::Rejected(rejection)) => {
                            &&& result == Ok::<TouchReport<G>, EnrollRunError>(
                                TouchReport { capture, outcome: TouchOutcome::Rejected(rejection) },
                            )
                            &&& final(self).enrollment == old(self).enrollment
                            &&& counts_rejection(*old(self), *final(self), rejection)
                        },
                        Ok(Gf3258EnrollmentPreparation::Prepared(prepared)) => exists|
                            retained: Result<RetainedTouch<G>, EnrollRunError>,
                        | #[trigger]
                            is_retention_of(
                                *old(self),
                                *final(self),
                                retained,
                                prepared,
                                engine.model(),
                                *geometry,
                            ) && result == (match retained {
                                Ok(retained) => Ok::<TouchReport<G>, EnrollRunError>(
                                    TouchReport {
                                        capture,
                                        outcome: TouchOutcome::Retained(retained),
                                    },
                                ),
                                Err(error) => Err(error),
                            }),
                    },
            },
    {
        let ghost before = *self;
        self.attempted_touches = self.attempted_touches + 1;
        let ghost opened = *self;
        let detailed: Gf3258DetailedEnrollmentTouch = match self.enrollment.capture_next_prepared(
            captured,
            preprocessed,
            maps,
        ) {
            Ok(detailed) => detailed,
            Err(error) => {
                return Err(EnrollRunError::Transaction(error));
            },
        };
        let (capture, preparation): (Gf3258CaptureDiagnostics, Gf3258EnrollmentPreparation) =
            detailed.into_parts();
        assert(enrollment::is_preparation_of(
            Ok::<Gf3258EnrollmentPreparation, Gf3258EnrollmentWorkflowError>(preparation),
            preprocessed,
            maps,
        ));
        match preparation {
            Gf3258EnrollmentPreparation::Rejected(rejection) => {
                match &rejection {
                    Gf3258EnrollmentRejection::Preprocess(_) => {},
                    Gf3258EnrollmentRejection::TooManyPoints { .. } => {
                        self.rejected_oversized_points = self.rejected_oversized_points + 1;
                    },
                    Gf3258EnrollmentRejection::PathologicalEdge { .. } => {
                        self.rejected_pathological = self.rejected_pathological + 1;
                    },
                }
                Ok(TouchReport { capture, outcome: TouchOutcome::Rejected(rejection) })
            },
            Gf3258EnrollmentPreparation::Prepared(prepared) => {
                let ghost sample = prepared;
                let retained: Result<RetainedTouch<G>, EnrollRunError> = self.retain(
                    prepared,
                    engine,
                    geometry,
                );
                assert(is_retention_of(
                    opened,
                    *self,
                    retained,
                    sample,
                    engine.model(),
                    *geometry,
                ));
                assert(is_retention_of(
                    before,
                    *self,
                    retained,
                    sample,
                    engine.model(),
                    *geometry,
                ));
                match retained {
                    Ok(retained) => Ok(
                        TouchReport { capture, outcome: TouchOutcome::Retained(retained) },
                    ),
                    Err(error) => Err(error),
                }
            },
        }
    }

    /// The counts of the run, and the state of its enrollment.
    pub fn summary(&self) -> (summary: EnrollSummary)
        requires
            self.wf(),
        ensures
            summary == (EnrollSummary {
                attempted_touches: self.attempted_touches,
                accepted_samples: self.enrollment.samples() as usize,
                progress_percent: enrollment::progress_spec(self.enrollment.samples() as int) as
                    usize,
                rejected_pathological: self.rejected_pathological,
                rejected_oversized_points: self.rejected_oversized_points,
                accepted_live_relations: self.accepted_live_relations,
                graph: enrollment::graph_diagnostics_of(
                    self.enrollment.workflow.template.state(),
                ),
            }),
    {
        EnrollSummary {
            attempted_touches: self.attempted_touches,
            accepted_samples: self.enrollment.sample_count(),
            progress_percent: self.enrollment.progress_percent(),
            rejected_pathological: self.rejected_pathological,
            rejected_oversized_points: self.rejected_oversized_points,
            accepted_live_relations: self.accepted_live_relations,
            graph: self.enrollment.graph_diagnostics(),
        }
    }

    /// The artifacts of an enrollment that reached its target; none of any other.
    pub fn finish<E, W, P>(self, encode: &E, wrap: &W, parse: &P) -> (result: Option<
        Result<Gf3258EnrollmentArtifacts, Gf3258EnrollmentTransactionError>,
    >) where
        E: Fn(&Gf3258EnrollmentTemplateCore) -> Result<Vec<u8>, String>,
        W: Fn(&[u8]) -> Result<Vec<u8>, String>,
        P: Fn(&[u8]) -> Result<Gf3258FreshTglaNode, String>,

        requires
            self.wf(),
            forall|t: &Gf3258EnrollmentTemplateCore| #[trigger] call_requires(*encode, (t,)),
            forall|raw: &[u8]| #[trigger] call_requires(*wrap, (raw,)),
            forall|tgla: &[u8]| #[trigger] call_requires(*parse, (tgla,)),
        ensures
            result is Some <==> self.enrollment.samples() >= GF3258_ENROLLMENT_TARGET_SAMPLES,
            match result {
                None => true,
                Some(Ok(artifacts)) => driver::is_encoding_of(
                    *encode,
                    *wrap,
                    *parse,
                    self.enrollment.workflow.template,
                    Ok(artifacts),
                ),
                Some(Err(Gf3258EnrollmentTransactionError::Workflow(error))) => {
                    driver::is_encoding_of(
                        *encode,
                        *wrap,
                        *parse,
                        self.enrollment.workflow.template,
                        Err(error),
                    )
                },
                Some(Err(_)) => false,
            },
    {
        if self.enrollment.progress_percent() != 100 {
            return None;
        }
        Some(self.enrollment.finish(encode, wrap, parse))
    }
}

/// A run that closes has reached its target or used up its touches.
pub proof fn lemma_closed_run(run: EnrollmentRun)
    requires
        run.wf(),
        !run.is_open(),
    ensures
        run.enrollment.samples() >= GF3258_ENROLLMENT_TARGET_SAMPLES || run.attempted_touches
            == run.max_attempts,
        enrollment::progress_spec(run.enrollment.samples() as int) == 100
            || run.attempted_touches == run.max_attempts,
{
}

/// First bytes of a raw template.
#[derive(Debug, Clone, Copy, PartialEq, Eq)]
pub struct RawEnvelope {
    pub magic: u8,
    /// Stored CRC, least significant byte first.
    pub crc_le: [u8; 4],
    pub payload_tag: u8,
}

/// The envelope of a raw template that is long enough to have one.
pub fn raw_envelope(raw: &[u8]) -> (envelope: Option<RawEnvelope>)
    ensures
        envelope is Some <==> raw@.len() >= 6,
        envelope is Some ==> {
            &&& envelope->Some_0.magic == raw@[0]
            &&& envelope->Some_0.crc_le@ == raw@.subrange(1, 5)
            &&& envelope->Some_0.payload_tag == raw@[5]
        },
{
    if raw.len() < 6 {
        return None;
    }
    let crc_le: [u8; 4] = [raw[1], raw[2], raw[3], raw[4]];
    assert(crc_le@ =~= raw@.subrange(1, 5));
    Some(RawEnvelope { magic: raw[0], crc_le, payload_tag: raw[5] })
}

} // verus!
