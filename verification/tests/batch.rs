use solar_monitoring_import::batch::pipeline::{
    backup_file_name, error_note_name, is_no_match, outcome_of, render_error_chain, ProcessError, ProcessOutcome,
};
use solar_monitoring_import::batch::scan::list_input_files;
use solar_monitoring_import::batch::{FileAction, RunSummary};
use solar_monitoring_import::error::{ProfileError, ReshapeError};

fn ok(rows: u64) -> Result<ProcessOutcome, ProcessError> {
    Ok(ProcessOutcome {
        rows,
        profile_name: "p".into(),
        year_month: "202604".into(),
        signature_drift: false,
    })
}

fn no_match() -> Result<ProcessOutcome, ProcessError> {
    Err(ProcessError::Route(ProfileError::NoMatch { file: "x.csv".into() }))
}

fn failure() -> Result<ProcessOutcome, ProcessError> {
    Err(ProcessError::Reshape(ReshapeError::BadYearMonth("2026".into())))
}

#[test]
fn summary_tallies_outcomes() {
    let mut s = RunSummary::default();
    assert_eq!(s.record(&ok(3), false), FileAction::Backup);
    assert_eq!(s.record(&no_match(), false), FileAction::Quarantine);
    assert_eq!(s.record(&failure(), false), FileAction::Quarantine);
    assert_eq!(s.record(&ok(4), false), FileAction::Backup);
    assert_eq!(s.processed, 2);
    assert_eq!(s.rejected_no_match, 1);
    assert_eq!(s.failed, 1);
    assert_eq!(s.rows_total, 7);
    assert!(s.has_failures());
}

#[test]
fn dry_run_keeps_every_file() {
    let mut s = RunSummary::default();
    assert_eq!(s.record(&ok(3), true), FileAction::Keep);
    assert_eq!(s.record(&no_match(), true), FileAction::Keep);
    assert_eq!(s.record(&failure(), true), FileAction::Keep);
    assert_eq!(s.processed + s.rejected_no_match + s.failed, 3);
}

#[test]
fn rejected_files_are_not_failures() {
    let mut s = RunSummary::default();
    s.record(&no_match(), false);
    assert!(!s.has_failures());
}

#[test]
fn no_match_is_told_apart() {
    assert!(is_no_match(&ProcessError::Route(ProfileError::NoMatch { file: "f".into() })));
    assert!(!is_no_match(&ProcessError::Route(ProfileError::AmbiguousMatch { file: "f".into(), names: vec![] })));
    assert!(!is_no_match(&ProcessError::Io("gone".into())));
}

#[test]
fn error_chain_text() {
    let msgs: Vec<String> = vec!["read with profile".into(), "bad csv".into(), "line 3".into()];
    assert_eq!(
        render_error_chain(&msgs),
        "read with profile\n  caused by [1]: bad csv\n  caused by [2]: line 3\n"
    );
    assert_eq!(render_error_chain(&msgs[..1]), "read with profile\n");
    assert_eq!(render_error_chain(&[]), "");
}

#[test]
fn backup_names() {
    assert_eq!(backup_file_name("in/202604_x.csv", "20260501").as_deref(), Some("202604_x_20260501.csv"));
    assert_eq!(backup_file_name("in/README", "20260501").as_deref(), Some("README_20260501"));
    assert_eq!(backup_file_name("in/a.tar.gz", "20260501").as_deref(), Some("a.tar_20260501.gz"));
    assert_eq!(backup_file_name("", "20260501"), None);
}

#[test]
fn error_note_names() {
    assert_eq!(error_note_name("in/202604_x.csv").as_deref(), Some("202604_x.csv.err.txt"));
    assert_eq!(error_note_name("in/noext").as_deref(), Some("noext.err.txt"));
    assert_eq!(error_note_name(""), None);
}

#[test]
fn input_files_filtered_and_sorted() {
    let entries: Vec<String> = vec![
        "in/b.xlsx".into(),
        "in/notes.txt".into(),
        "in/a.csv".into(),
        "in/C.XLSM".into(),
        "in/a.csv".into(),
    ];
    assert_eq!(
        list_input_files(entries),
        vec!["in/C.XLSM".to_string(), "in/a.csv".into(), "in/a.csv".into(), "in/b.xlsx".into()]
    );
}

#[test]
fn outcome_counts_written_or_made_rows() {
    let o = outcome_of("p".into(), "202604".into(), 3, true, None);
    assert_eq!(o.rows, 3);
    assert!(!o.signature_drift);
    let o = outcome_of("p".into(), "202604".into(), 3, false, Some(2));
    assert_eq!(o.rows, 2);
    assert!(o.signature_drift);
    assert_eq!(o.profile_name, "p");
    assert_eq!(o.year_month, "202604");
}

#[test]
fn input_files_without_repeats_are_strictly_sorted() {
    let entries: Vec<String> = vec!["in/b.csv".into(), "in/a.csv".into(), "in/c.txt".into()];
    assert_eq!(list_input_files(entries), vec!["in/a.csv".to_string(), "in/b.csv".into()]);
}
