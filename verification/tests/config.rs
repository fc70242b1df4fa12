use coverage_metrics::args::Args;
use coverage_metrics::error::ExportError;
use coverage_metrics::submit::{check_credential, finish_submission, SubmissionOutcome};

fn base_args() -> Args {
    Args {
        project_name: None,
        project_version: None,
        commit_hash: None,
        branch_name: None,
        datadog_site: String::from("https://api.datadoghq.com"),
        datadog_api_key: String::from("not-a-real-key"),
        series_name: String::from("coverage"),
        report: String::from("report.json"),
    }
}

#[test]
fn no_metadata_yields_empty_tag_set() {
    let args = base_args();
    assert!(args.tags().is_empty());
}

#[test]
fn each_supplied_value_becomes_one_tag_in_fixed_order() {
    let mut args = base_args();
    args.project_name = Some(String::from("demo"));
    args.project_version = Some(String::from("1.2.3"));
    args.commit_hash = Some(String::from("abc123"));
    args.branch_name = Some(String::from("main"));
    assert_eq!(
        args.tags(),
        vec![
            String::from("project_name:demo"),
            String::from("project_version:1.2.3"),
            String::from("commit_hash:abc123"),
            String::from("branch_name:main"),
        ]
    );
}

#[test]
fn absent_values_are_skipped_without_holes() {
    let mut args = base_args();
    args.project_version = Some(String::from("0.1.0"));
    args.branch_name = Some(String::from("develop"));
    assert_eq!(
        args.tags(),
        vec![String::from("project_version:0.1.0"), String::from("branch_name:develop")]
    );
}

#[test]
fn empty_credential_is_rejected() {
    assert_eq!(
        check_credential(&String::new()),
        Err(ExportError::RejectedError)
    );
}

#[test]
fn non_empty_credential_is_accepted() {
    assert_eq!(check_credential(&String::from("k")), Ok(()));
}

#[test]
fn submission_outcomes_map_to_terminal_results() {
    assert_eq!(finish_submission(&SubmissionOutcome::Delivered), Ok(()));
    assert_eq!(
        finish_submission(&SubmissionOutcome::TransportFailure),
        Err(ExportError::TransportError)
    );
    assert_eq!(
        finish_submission(&SubmissionOutcome::Rejected),
        Err(ExportError::RejectedError)
    );
}

#[test]
fn error_descriptions_name_each_kind() {
    assert_eq!(ExportError::MalformedReport.describe(), "invalid report format");
    assert_eq!(
        ExportError::TransportError.describe(),
        "unable to reach the metrics endpoint"
    );
    assert_eq!(
        ExportError::RejectedError.describe(),
        "the metrics endpoint rejected the submission"
    );
}
