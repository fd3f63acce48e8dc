use goodix_info::enrollment::{
    gf3258_check_read_back, gf3258_enrollment_point_count_rejection,
    gf3258_enrollment_progress_percent, gf3258_validate_fresh_tgla, Gf3258EnrollmentPreparation,
    Gf3258EnrollmentRejection, Gf3258EnrollmentWorkflow, Gf3258EnrollmentWorkflowError,
    Gf3258FreshTglaNode, Gf3258PreprocessDiagnostics, Gf3258PreprocessedFrame,
    GF3258_ENROLLMENT_POINT_CAPACITY,
};
use goodix_info::enrollment_add::Gf3258EnrollmentTemplateCore;
use goodix_info::registration::Gf3258MapOps;

fn empty_map(_: &[u8]) -> [u8; 160] {
    [0; 160]
}

fn empty_masked_map(_: &[u8], _: &[u8]) -> [u8; 160] {
    [0; 160]
}

type Maps = Gf3258MapOps<fn(&[u8]) -> [u8; 160], fn(&[u8], &[u8]) -> [u8; 160], fn(&[u8]) -> [u8; 160]>;

fn maps() -> Maps {
    Gf3258MapOps {
        primary: empty_map,
        secondary: empty_masked_map,
        low_threshold: empty_map,
    }
}

fn diagnostics(pathological_edge_samples: usize) -> Gf3258PreprocessDiagnostics {
    Gf3258PreprocessDiagnostics {
        valid_central_pixels: 0,
        tested_central_pixels: 0,
        foreground_count: 0,
        coverage_percent: 0,
        active_difference_count: 0,
        gain_correction_active: false,
        low_dynamic_range_count: 0,
        pathological_edge_samples,
    }
}

#[test]
fn rejected_preprocess_does_not_mutate_enrollment_state() {
    let workflow = Gf3258EnrollmentWorkflow::new();

    let outcome = workflow
        .prepare_raw_frame(Err("blank frame".to_owned()), &maps())
        .unwrap();
    assert!(matches!(
        outcome,
        Gf3258EnrollmentPreparation::Rejected(Gf3258EnrollmentRejection::Preprocess(_))
    ));
    assert_eq!(workflow.sample_count(), 0);
    assert_eq!(workflow.progress_percent(), 0);
}

#[test]
fn point_capacity_guard_accepts_limit_and_rejects_before_commit() {
    assert_eq!(
        gf3258_enrollment_point_count_rejection(GF3258_ENROLLMENT_POINT_CAPACITY),
        None
    );
    assert_eq!(
        gf3258_enrollment_point_count_rejection(GF3258_ENROLLMENT_POINT_CAPACITY + 2),
        Some(Gf3258EnrollmentRejection::TooManyPoints {
            actual: 122,
            capacity: GF3258_ENROLLMENT_POINT_CAPACITY,
        })
    );

    let workflow = Gf3258EnrollmentWorkflow::new();
    assert_eq!(workflow.sample_count(), 0);
    assert_eq!(workflow.progress_percent(), 0);
}

#[test]
fn progress_matches_recovered_general_samples_arithmetic() {
    assert_eq!(gf3258_enrollment_progress_percent(0), 0);
    assert_eq!(gf3258_enrollment_progress_percent(1), 8);
    assert_eq!(gf3258_enrollment_progress_percent(11), 91);
    assert_eq!(gf3258_enrollment_progress_percent(12), 100);
    assert_eq!(gf3258_enrollment_progress_percent(13), 100);
}

#[test]
fn a_pathological_edge_is_rejected_before_extraction() {
    let frame = Gf3258PreprocessedFrame {
        pixels: vec![],
        diagnostics: diagnostics(3),
    };
    let outcome = Gf3258EnrollmentWorkflow::new()
        .prepare_raw_frame(Ok(frame), &maps())
        .unwrap();
    assert_eq!(
        outcome,
        Gf3258EnrollmentPreparation::Rejected(Gf3258EnrollmentRejection::PathologicalEdge {
            diagnostics: diagnostics(3)
        })
    );
}

#[test]
fn a_frame_of_the_wrong_size_is_an_error() {
    let frame = Gf3258PreprocessedFrame {
        pixels: vec![0; 17],
        diagnostics: diagnostics(0),
    };
    let error = Gf3258EnrollmentWorkflow::new()
        .prepare_raw_frame(Ok(frame), &maps())
        .unwrap_err();
    assert!(matches!(
        error,
        Gf3258EnrollmentWorkflowError::PrimaryExtraction(_)
    ));
    assert!(error.message().contains("17"));
}

fn node(raw: &[u8], metadata: Vec<u8>) -> Gf3258FreshTglaNode {
    Gf3258FreshTglaNode {
        total_size: 64,
        raw_crc: 0xdead_beef,
        raw_template: raw.to_vec(),
        config_prefix: vec![0; 4],
        commit_metadata: metadata,
        trailing_zero_bytes: 5,
    }
}

#[test]
fn a_stored_template_is_reported_as_it_was_parsed() {
    let validated = gf3258_validate_fresh_tgla(Ok(node(&[1, 2, 3], vec![0, 1]))).unwrap();
    let diagnostics = validated.diagnostics();
    assert_eq!(diagnostics.total_size, 64);
    assert_eq!(diagnostics.raw_length, 3);
    assert_eq!(diagnostics.raw_crc, 0xdead_beef);
    assert!(diagnostics.config_prefix_zero);
    assert!(!diagnostics.commit_metadata_zero);
    assert_eq!(diagnostics.trailing_zero_bytes, 5);
    assert_eq!(validated.raw_template(), &[1, 2, 3]);

    let error = gf3258_validate_fresh_tgla(Err("short".to_owned())).unwrap_err();
    assert!(error.message().contains("short"));
}

#[test]
fn what_is_read_back_must_be_what_was_written() {
    assert!(gf3258_check_read_back(&[1, 2], Ok(node(&[1, 2], vec![]))).is_ok());
    assert!(gf3258_check_read_back(&[1, 2], Ok(node(&[1, 3], vec![]))).is_err());
    assert!(gf3258_check_read_back(&[1, 2], Err("short".to_owned())).is_err());
}

#[test]
fn artifacts_hold_the_raw_and_the_wrapped_template() {
    let encode = |_: &Gf3258EnrollmentTemplateCore| Ok::<_, String>(vec![7u8, 8, 9]);
    let wrap = |raw: &[u8]| {
        let mut wrapped = vec![0x54];
        wrapped.extend_from_slice(raw);
        Ok::<_, String>(wrapped)
    };
    let parse = |tgla: &[u8]| Ok::<_, String>(node(&tgla[1..], vec![0]));
    let artifacts = Gf3258EnrollmentWorkflow::new()
        .encode_artifacts(&encode, &wrap, &parse)
        .unwrap();
    assert_eq!(artifacts.raw_template(), &[7, 8, 9]);
    assert_eq!(artifacts.tgla_template(), &[0x54, 7, 8, 9]);
    assert_eq!(artifacts.tgla_diagnostics().raw_length, 3);
    assert_eq!(
        artifacts.validate_tgla_bytes(parse(artifacts.tgla_template())),
        Ok(artifacts.tgla_diagnostics())
    );
    assert!(artifacts
        .validate_tgla_bytes(Ok(node(&[7, 8, 9], vec![0])))
        .is_ok());
    assert!(artifacts
        .validate_tgla_bytes(Ok(node(&[7, 8], vec![0])))
        .is_err());

    let lossy = |_: &[u8]| Ok::<_, String>(node(&[1], vec![0]));
    assert!(Gf3258EnrollmentWorkflow::new()
        .encode_artifacts(&encode, &wrap, &lossy)
        .is_err());
}
