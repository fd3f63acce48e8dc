use goodix_info::app_error::{AppError, AppErrorKind};
use goodix_info::driver::{
    Gf3258CaptureDiagnostics, Gf3258EnrollmentTransactionError, Gf3258SessionError,
};
use goodix_info::enrollment::{
    is_preparable, Gf3258EnrollmentRejection, Gf3258FreshTglaNode, Gf3258PreprocessDiagnostics,
    Gf3258PreprocessedFrame,
};
use goodix_info::enrollment_add::{
    Gf3258EnrollmentAddKind, Gf3258EnrollmentTemplateCore, Gf3258RegistrationEngine,
};
use goodix_info::enrollment_graph::Gf3258EnrollmentSample;
use goodix_info::feature::matching::{Gf3258MatcherPoint, Gf3258OwnedMatcherFeature};
use goodix_info::registration::{
    Gf3258AffineQ8, Gf3258MapOps, Gf3258PointRegistration, Gf3258RegistrationMapScores,
    Gf3258RegistrationPoint, Gf3258TransformOps,
};
use goodix_info::standalone_enroll::{
    compare_with_retained, compare_with_sample, is_below_target, parse_arguments, raw_envelope,
    EnrollInvocation, EnrollOptions, EnrollRunError, EnrollmentRun, RawEnvelope, TouchOutcome,
    TouchReport,
};

fn args(list: &[&str]) -> Vec<String> {
    list.iter().map(|arg| arg.to_string()).collect()
}

fn run(list: &[&str]) -> EnrollOptions {
    match parse_arguments(&args(list)) {
        Ok(EnrollInvocation::Run(options)) => options,
        other => panic!("not a run: {other:?}"),
    }
}

fn refusal(list: &[&str]) -> String {
    let error = parse_arguments(&args(list)).unwrap_err();
    assert_eq!(error.kind(), AppErrorKind::InvalidInput);
    error.message().to_owned()
}

#[test]
fn an_enrollment_runs_without_arguments() {
    let options = run(&[]);
    assert_eq!(
        options,
        EnrollOptions {
            max_attempts: 36,
            trace_path: None,
            firmware_path: None,
            raw_template_path: "gf3258-enrollment.raw".to_owned(),
            tgla_template_path: "gf3258-enrollment.tgla".to_owned(),
            load_template_path: None,
        }
    );
    assert!(!is_below_target(&options));
}

#[test]
fn enrollment_options_are_taken_in_order() {
    let options = run(&[
        "--touches",
        "20",
        "--max-attempts",
        "11",
        "--trace",
        "t",
        "--firmware",
        "fw",
        "--raw-template",
        "r",
        "--template",
        "a",
        "--tgla-template",
        "b",
    ]);
    assert_eq!(options.max_attempts, 11);
    assert_eq!(options.trace_path.as_deref(), Some("t"));
    assert_eq!(options.firmware_path.as_deref(), Some("fw"));
    assert_eq!(options.raw_template_path, "r");
    assert_eq!(options.tgla_template_path, "b");
    assert!(is_below_target(&options));
    assert!(!is_below_target(&run(&[
        "--max-attempts",
        "1",
        "--load-template",
        "x"
    ])));
}

#[test]
fn wrong_enrollment_arguments_are_refused() {
    assert_eq!(
        refusal(&["--touches"]),
        "--touches requires a positive integer"
    );
    assert_eq!(
        refusal(&["--max-attempts", "many"]),
        "invalid --max-attempts value: many"
    );
    assert_eq!(
        refusal(&["--max-attempts", "0"]),
        "--max-attempts must be greater than zero"
    );
    assert_eq!(refusal(&["--trace"]), "--trace requires a filename");
    assert_eq!(refusal(&["--firmware"]), "--firmware requires a filename");
    assert_eq!(
        refusal(&["--raw-template"]),
        "--raw-template requires a filename"
    );
    assert_eq!(
        refusal(&["--template"]),
        "--tgla-template requires a filename"
    );
    assert_eq!(
        refusal(&["--load-template"]),
        "--load-template requires a filename"
    );
    assert_eq!(refusal(&["x"]), "unknown argument: x");
    assert_eq!(
        parse_arguments(&args(&["-h", "x"])),
        Ok(EnrollInvocation::Help)
    );
}

#[test]
fn a_raw_template_starts_with_its_envelope() {
    assert_eq!(
        raw_envelope(&[1, 2, 3, 4, 5, 6, 7]),
        Some(RawEnvelope {
            magic: 1,
            crc_le: [2, 3, 4, 5],
            payload_tag: 6,
        })
    );
    assert_eq!(raw_envelope(&[1, 2, 3, 4, 5]), None);
}

fn cell_map(_: &[u8]) -> [u8; 160] {
    [0; 160]
}

fn masked_cell_map(_: &[u8], _: &[u8]) -> [u8; 160] {
    [0; 160]
}

type CellMap = fn(&[u8]) -> [u8; 160];

fn maps() -> Gf3258MapOps<CellMap, fn(&[u8], &[u8]) -> [u8; 160], CellMap> {
    Gf3258MapOps {
        primary: cell_map,
        secondary: masked_cell_map,
        low_threshold: cell_map,
    }
}

fn register(
    _: &[Gf3258RegistrationPoint],
    _: &[Gf3258RegistrationPoint],
) -> Option<Gf3258PointRegistration> {
    Some(Gf3258PointRegistration {
        correspondence_count: 8,
        inlier_count: 7,
        transform: Gf3258AffineQ8::identity(),
    })
}

fn score(
    _: &[Gf3258EnrollmentSample],
    _: usize,
    _: usize,
    _: Gf3258AffineQ8,
) -> Gf3258RegistrationMapScores {
    Gf3258RegistrationMapScores {
        score: 255,
        metric_a: 255,
        metric_b: 255,
    }
}

fn accepts(inliers: usize, metric_a: i32, _: i32) -> bool {
    inliers >= 6 && metric_a >= 216
}

fn same(t: Gf3258AffineQ8) -> Gf3258AffineQ8 {
    t
}

fn inner(_: Gf3258AffineQ8, inner: Gf3258AffineQ8) -> Gf3258AffineQ8 {
    inner
}

fn novelty(_: &[u8; 160], _: &[Gf3258AffineQ8]) -> i32 {
    0
}

type Engine = Gf3258RegistrationEngine<
    fn(&[Gf3258RegistrationPoint], &[Gf3258RegistrationPoint]) -> Option<Gf3258PointRegistration>,
    fn(&[Gf3258EnrollmentSample], usize, usize, Gf3258AffineQ8) -> Gf3258RegistrationMapScores,
    fn(usize, i32, i32) -> bool,
    fn(Gf3258AffineQ8) -> Gf3258AffineQ8,
    fn(Gf3258AffineQ8, Gf3258AffineQ8) -> Gf3258AffineQ8,
    fn(&[u8; 160], &[Gf3258AffineQ8]) -> i32,
>;

fn engine() -> Engine {
    Gf3258RegistrationEngine {
        register,
        score,
        accepts,
        transforms: Gf3258TransformOps {
            inverse: same,
            compose: inner,
            novelty,
        },
    }
}

fn geometry(
    enrolled: &[Gf3258MatcherPoint],
    live: &[Gf3258MatcherPoint],
    slots: &[[i32; 2]; 31],
) -> Result<(usize, usize, [i32; 2]), String> {
    Ok((enrolled.len(), live.len(), slots[0]))
}

fn no_geometry(
    _: &[Gf3258MatcherPoint],
    _: &[Gf3258MatcherPoint],
    _: &[[i32; 2]; 31],
) -> Result<(usize, usize, [i32; 2]), String> {
    Err("Degenerate".to_owned())
}

fn capture() -> Result<Gf3258CaptureDiagnostics, Gf3258SessionError> {
    Ok(Gf3258CaptureDiagnostics {
        protected_bytes: 7690,
        stored_crc: 1,
    })
}

fn frame(pathological_edge_samples: usize) -> Result<Gf3258PreprocessedFrame, String> {
    Ok(Gf3258PreprocessedFrame {
        pixels: vec![127; 5120],
        diagnostics: Gf3258PreprocessDiagnostics {
            valid_central_pixels: 0,
            tested_central_pixels: 0,
            foreground_count: 0,
            coverage_percent: 0,
            active_difference_count: 0,
            gain_correction_active: false,
            low_dynamic_range_count: 0,
            pathological_edge_samples,
        },
    })
}

fn touch(
    run: &mut EnrollmentRun,
    frame: Result<Gf3258PreprocessedFrame, String>,
) -> TouchReport<(usize, usize, [i32; 2])> {
    assert!(run.wants_touch());
    assert!(is_preparable(&frame));
    run.touch(capture(), frame, &maps(), &engine(), &geometry)
        .unwrap()
}

#[test]
fn a_run_ends_with_twelve_retained_samples() {
    let mut run = EnrollmentRun::new(36);
    for sample in 0..12usize {
        let report = touch(&mut run, frame(0));
        let retained = match report.outcome {
            TouchOutcome::Retained(retained) => retained,
            other => panic!("not retained: {other:?}"),
        };
        assert_eq!(retained.comparisons.len(), sample);
        assert_eq!(retained.commit.sample_count, sample + 1);
        if sample > 0 {
            assert_eq!(
                retained.commit.step.enrollment.kind,
                Gf3258EnrollmentAddKind::Integrated
            );
            assert_eq!(retained.comparisons[sample - 1].sample_index, sample - 1);
            assert_eq!(retained.comparisons[sample - 1].candidate_pairs, 0);
        }
    }
    assert!(!run.wants_touch());
    let summary = run.summary();
    assert_eq!(summary.attempted_touches, 12);
    assert_eq!(summary.accepted_samples, 12);
    assert_eq!(summary.progress_percent, 100);
    assert_eq!(summary.accepted_live_relations, 66);
    assert_eq!(summary.graph.nodes, 12);

    let encode = |template: &Gf3258EnrollmentTemplateCore| {
        Ok::<_, String>(vec![template.sample_count() as u8])
    };
    let wrap = |raw: &[u8]| Ok::<_, String>(raw.to_vec());
    let parse = |tgla: &[u8]| {
        Ok::<_, String>(Gf3258FreshTglaNode {
            total_size: tgla.len(),
            raw_crc: 0,
            raw_template: tgla.to_vec(),
            config_prefix: vec![],
            commit_metadata: vec![],
            trailing_zero_bytes: 0,
        })
    };
    let artifacts = run.finish(&encode, &wrap, &parse).unwrap().unwrap();
    assert_eq!(artifacts.raw_template(), &[12]);
}

#[test]
fn rejected_touches_count_and_advance_nothing() {
    let mut run = EnrollmentRun::new(3);
    let edge = touch(&mut run, frame(2));
    assert!(matches!(
        edge.outcome,
        TouchOutcome::Rejected(Gf3258EnrollmentRejection::PathologicalEdge { .. })
    ));
    let blank = touch(&mut run, Err("blank".to_owned()));
    assert_eq!(
        blank.outcome,
        TouchOutcome::Rejected(Gf3258EnrollmentRejection::Preprocess("blank".to_owned()))
    );
    touch(&mut run, frame(1));
    assert!(!run.wants_touch());
    let summary = run.summary();
    assert_eq!(summary.attempted_touches, 3);
    assert_eq!(summary.accepted_samples, 0);
    assert_eq!(summary.progress_percent, 0);
    assert_eq!(summary.rejected_pathological, 2);
    assert_eq!(summary.rejected_oversized_points, 0);
    let encode = |_: &Gf3258EnrollmentTemplateCore| Ok::<_, String>(vec![]);
    let wrap = |_: &[u8]| Ok::<_, String>(vec![]);
    let parse = |_: &[u8]| Err::<Gf3258FreshTglaNode, String>("unread".to_owned());
    assert!(run.finish(&encode, &wrap, &parse).is_none());
}

#[test]
fn a_failed_capture_or_comparison_ends_a_run() {
    let mut run = EnrollmentRun::new(5);
    assert_eq!(
        run.touch(
            Err(Gf3258SessionError::BootImage),
            frame(0),
            &maps(),
            &engine(),
            &geometry
        ),
        Err(EnrollRunError::Transaction(
            Gf3258EnrollmentTransactionError::Session(Gf3258SessionError::BootImage)
        ))
    );
    touch(&mut run, frame(0));
    assert_eq!(
        run.touch(capture(), frame(0), &maps(), &engine(), &no_geometry),
        Err(EnrollRunError::App(AppError::invalid_data(
            "matcher geometry failed for retained sample 0: Degenerate".to_owned()
        )))
    );
    assert_eq!(run.summary().accepted_samples, 1);
    assert_eq!(run.summary().attempted_touches, 3);
}

fn point(x_q8: u16, descriptor: u8) -> Gf3258MatcherPoint {
    Gf3258MatcherPoint {
        polarity: 0,
        x_q8,
        y_q8: 0x1000,
        orientation_q12: 0,
        descriptor_10_1f: [descriptor; 16],
        hash20: 0,
        hash24: 0,
        hash28: 0,
        hash30: 0,
    }
}

#[test]
fn a_comparison_counts_both_descriptor_modes() {
    let feature = Gf3258OwnedMatcherFeature {
        points: vec![point(0x1000, 0x00), point(0x4000, 0xf0)],
        polarity_split: 2,
    };
    let diagnostic = compare_with_sample(4, &feature, &feature, &geometry).unwrap();
    assert_eq!(diagnostic.sample_index, 4);
    assert_eq!(diagnostic.enrolled_points, 2);
    assert_eq!(diagnostic.enrolled_split, 2);
    assert_eq!(diagnostic.candidate_pairs, 2);
    assert_eq!(
        diagnostic.normal_mode + diagnostic.alternate_mode,
        diagnostic.candidate_pairs
    );
    assert_eq!(diagnostic.normal_mode, 2);
    assert_eq!(diagnostic.geometry, (2, 2, [0, 0]));
    let all = compare_with_retained(&vec![feature.clone(), feature.clone()], &feature, &geometry)
        .unwrap();
    assert_eq!(all.len(), 2);
    assert_eq!(all[1].sample_index, 1);
    assert!(compare_with_retained(&vec![feature.clone()], &feature, &no_geometry).is_err());
}
