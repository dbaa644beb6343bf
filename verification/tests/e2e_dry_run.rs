//! A run over one input file, driven through the library's steps the way the
//! program drives them, with a recording stand-in for the database.
use solar_monitoring_import::batch::pipeline::{
    backup_file_name, outcome_of, process_text_file, text_for, ProcessError, ProcessOutcome, TextStep,
};
use solar_monitoring_import::batch::{FileAction, RunSummary};
use solar_monitoring_import::dao::row::DailyKwhRow;
use solar_monitoring_import::decimal::DecimalValue;
use solar_monitoring_import::profile::{
    AnchorMatch, IdCol, LoadedProfile, MatchRules, Profile, Registry, Unpivot, ValueKind, ValueRules,
};
use solar_monitoring_import::reader::Format;

fn test_profile(name: &str, header_contains: Vec<String>, day_cols: usize, decimals: u32, max: u128) -> Profile {
    Profile {
        name: name.into(),
        match_rules: MatchRules {
            filename: Some("*.csv".into()),
            header_contains,
            header_signature: None,
            priority: 1,
        },
        encoding: "utf-8".into(),
        format: Format::Csv,
        sheet: None,
        header_rows: 1,
        data_start_row: 2,
        skip_blank_id: true,
        fill_merged: false,
        id_cols: vec![
            IdCol { name: "caseid".into(), col: 1, header: None, kind: "string".into() },
            IdCol { name: "plant_name".into(), col: 2, header: None, kind: "string".into() },
        ],
        unpivot: Unpivot {
            anchor: "1日".into(),
            anchor_match: AnchorMatch::Exact,
            day_cols,
            validate_calendar_day: true,
            var_name: "shift_hour".into(),
            value_name: "daily_kwh".into(),
            year_month_from: "filename:0..6".into(),
            anchor_col_observed: None,
        },
        value_rules: ValueRules {
            kind: ValueKind::Decimal,
            decimals,
            missing_values: vec!["".into()],
            zero_is_valid: true,
            min: Some(DecimalValue { negative: false, magnitude: 0, scale: 0 }),
            max: Some(DecimalValue { negative: false, magnitude: max, scale: 0 }),
        },
    }
}

#[derive(Default)]
struct RecordingDao {
    calls: Vec<(String, Vec<DailyKwhRow>)>,
}

impl RecordingDao {
    fn upsert_month(&mut self, ym: &str, rows: &[DailyKwhRow]) -> u64 {
        self.calls.push((ym.to_string(), rows.to_vec()));
        rows.len() as u64
    }
}

/// The library's text pipeline, then the write (or, in a dry run, nothing).
fn process_file(
    path: &str,
    filename: &str,
    bytes: &[u8],
    registry: &Registry,
    dao: &mut RecordingDao,
    dry_run: bool,
) -> Result<ProcessOutcome, ProcessError> {
    match process_text_file(registry, path, filename, bytes, dry_run)? {
        TextStep::Done { outcome, .. } => Ok(outcome),
        TextStep::Write { profile, year_month, rows, signature_ok } => {
            let n = dao.upsert_month(&year_month, &rows);
            Ok(outcome_of(profile.name.clone(), year_month, rows.len(), signature_ok, Some(n)))
        }
    }
}

const CSV: &str = "caseid,plant_name,1日,2日,3日\nA001,PlantA,10.5,20.5,30.5\n";

fn registry() -> Registry {
    Registry::from_profiles(vec![LoadedProfile {
        path: "profiles/test.json".into(),
        profile: test_profile("test_csv", vec!["1日".into()], 3, 2, 10000),
    }])
}

#[test]
fn dry_run_emits_no_insert_calls() {
    let reg = registry();
    let mut dao = RecordingDao::default();
    let mut summary = RunSummary::default();
    let result = process_file("input/202604_x.csv", "202604_x.csv", CSV.as_bytes(), &reg, &mut dao, true);
    let action = summary.record(&result, true);

    assert_eq!(summary.processed, 1);
    assert_eq!(summary.rows_total, 3);
    assert_eq!(dao.calls.len(), 0); // dry-run = no insert
    // File should NOT be moved on dry-run.
    assert_eq!(action, FileAction::Keep);
}

#[test]
fn run_calls_dao_and_moves_to_backup() {
    let reg = registry();
    let mut dao = RecordingDao::default();
    let mut summary = RunSummary::default();
    let result = process_file("input/202604_x.csv", "202604_x.csv", CSV.as_bytes(), &reg, &mut dao, false);
    let action = summary.record(&result, false);

    assert_eq!(summary.processed, 1);
    assert_eq!(summary.rows_total, 3);
    assert_eq!(dao.calls.len(), 1);
    let (ym, rows) = &dao.calls[0];
    assert_eq!(ym, "202604");
    assert_eq!(rows.len(), 3);
    assert_eq!(rows[0].caseid, "A001");
    assert_eq!(rows[0].shift_hour, "20260401");

    // Moved out to bak/ under a date-suffixed name.
    assert_eq!(action, FileAction::Backup);
    assert_eq!(
        backup_file_name("input/202604_x.csv", "20260501").as_deref(),
        Some("202604_x_20260501.csv")
    );
}

#[test]
fn e2e_dry_run_april_drops_day_31() {
    let reg = Registry::from_profiles(vec![LoadedProfile {
        path: "profiles/p.json".into(),
        profile: test_profile("csv31", vec!["1日".into(), "31日".into()], 31, 4, 100000),
    }]);
    let mut header_cols: Vec<String> = vec!["caseid".into(), "plant_name".into()];
    let mut data_cols: Vec<String> = vec!["A001".into(), "PlantA".into()];
    for d in 1..=31 {
        header_cols.push(format!("{}日", d));
        data_cols.push(format!("{}.0", d));
    }
    let csv = format!("{}\n{}\n", header_cols.join(","), data_cols.join(","));
    let mut dao = RecordingDao::default();
    let mut summary = RunSummary::default();
    let result = process_file("input/202604_april.csv", "202604_april.csv", csv.as_bytes(), &reg, &mut dao, true);
    summary.record(&result, true);
    assert_eq!(summary.rows_total, 30, "April has 30 days, not 31");
}

#[test]
fn unmatched_file_is_rejected_and_quarantined() {
    let reg = registry();
    let mut dao = RecordingDao::default();
    let mut summary = RunSummary::default();
    let result = process_file("input/invoice.csv", "invoice.csv", b"a,b\n", &reg, &mut dao, false);
    assert!(matches!(result, Err(ProcessError::Route(_))));
    assert_eq!(summary.record(&result, false), FileAction::Quarantine);
    assert_eq!(summary.rejected_no_match, 1);
    assert!(!summary.has_failures());
}

#[test]
fn text_only_for_csv() {
    assert_eq!(text_for(Format::Xlsx, "auto", b"\x00\x01").unwrap(), None);
    assert_eq!(text_for(Format::Csv, "auto", b"\xEF\xBB\xBFa,b").unwrap().as_deref(), Some("a,b"));
    assert!(text_for(Format::Csv, "utf-8", b"\xFF").is_err());
}

#[test]
fn dry_run_never_asks_for_a_write() {
    let reg = registry();
    match process_text_file(&reg, "input/202604_x.csv", "202604_x.csv", CSV.as_bytes(), true).unwrap() {
        TextStep::Done { outcome, rows } => {
            assert_eq!(outcome.rows, 3);
            assert_eq!(rows.len(), 3);
            assert_eq!(rows[2].shift_hour, "20260403");
        }
        TextStep::Write { .. } => panic!("a dry run asked for a write"),
    }
    assert!(matches!(
        process_text_file(&reg, "input/202604_x.csv", "202604_x.csv", CSV.as_bytes(), false).unwrap(),
        TextStep::Write { .. }
    ));
}
