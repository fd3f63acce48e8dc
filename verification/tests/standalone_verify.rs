use goodix_info::app_error::AppErrorKind;
use goodix_info::standalone_verify::{
    decision_name, parse_arguments, VerificationDecision, VerificationRejection, VerificationRun,
    VerifyInvocation, VerifyOptions,
};

fn args(list: &[&str]) -> Vec<String> {
    list.iter().map(|arg| arg.to_string()).collect()
}

fn refusal(list: &[&str]) -> String {
    let error = parse_arguments(&args(list)).unwrap_err();
    assert_eq!(error.kind(), AppErrorKind::InvalidInput);
    error.message().to_owned()
}

#[test]
fn a_template_is_all_that_a_verification_needs() {
    assert_eq!(
        parse_arguments(&args(&["--template", "t"])),
        Ok(VerifyInvocation::Run(VerifyOptions {
            template_path: "t".to_owned(),
            attempts: 1,
            trace_path: None,
            firmware_path: None,
            label: None,
        }))
    );
    assert_eq!(refusal(&[]), "--template FILE is required");
}

#[test]
fn the_last_of_equal_options_counts() {
    assert_eq!(
        parse_arguments(&args(&[
            "--template",
            "a",
            "--attempts",
            "+7",
            "--trace",
            "tr",
            "--firmware",
            "fw",
            "--label",
            "left",
            "--template",
            "b",
        ])),
        Ok(VerifyInvocation::Run(VerifyOptions {
            template_path: "b".to_owned(),
            attempts: 7,
            trace_path: Some("tr".to_owned()),
            firmware_path: Some("fw".to_owned()),
            label: Some("left".to_owned()),
        }))
    );
}

#[test]
fn wrong_verification_arguments_are_refused() {
    assert_eq!(refusal(&["--template"]), "--template requires a filename");
    assert_eq!(refusal(&["--trace"]), "--trace requires a filename");
    assert_eq!(refusal(&["--firmware"]), "--firmware requires a filename");
    assert_eq!(refusal(&["--label"]), "--label requires a value");
    assert_eq!(
        refusal(&["--attempts"]),
        "--attempts requires a positive integer"
    );
    assert_eq!(
        refusal(&["--attempts", "x"]),
        "--attempts must be a positive integer"
    );
    assert_eq!(
        refusal(&["--attempts", "0"]),
        "--attempts must be greater than zero"
    );
    assert_eq!(refusal(&["--what"]), "unknown option: --what");
    assert_eq!(
        parse_arguments(&args(&["--help", "--what"])),
        Ok(VerifyInvocation::Help)
    );
}

#[test]
fn every_touch_is_counted_once() {
    let mut run = VerificationRun::new(3);
    assert_eq!(run.next_touch(), Some(1));
    run.record(true);
    assert_eq!(run.next_touch(), Some(2));
    run.record(false);
    assert_eq!(run.next_touch(), Some(3));
    run.record(true);
    assert_eq!(run.next_touch(), None);
    assert_eq!((run.completed, run.rejected), (2, 1));
}

#[test]
fn decisions_and_rejections_have_texts() {
    assert_eq!(decision_name(VerificationDecision::Match), "MATCH");
    assert_eq!(decision_name(VerificationDecision::NoMatch), "NO_MATCH");
    assert_eq!(
        VerificationRejection::Preprocess("blank".to_owned()).message(),
        "verification capture rejected during preprocessing: blank"
    );
    assert_eq!(
        VerificationRejection::PathologicalEdge {
            pathological_edge_samples: 4
        }
        .message(),
        "verification capture rejected: pathological edge samples=4"
    );
}
