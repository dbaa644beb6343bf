use solar_monitoring_import::decimal::DecimalValue;
use solar_monitoring_import::error::ProfileError;
use solar_monitoring_import::profile::{
    first_row, is_profile_file, AnchorMatch, IdCol, LoadedProfile, MatchRules, Profile, Registry, Unpivot, ValueKind,
    ValueRules,
};

use solar_monitoring_import::profile::signature::compute;
use solar_monitoring_import::reader::Format;

fn make_profile(name: &str, filename_pat: &str, priority: i32, header_contains: Vec<String>) -> LoadedProfile {
    let profile = Profile {
        name: name.into(),
        match_rules: MatchRules {
            filename: Some(filename_pat.into()),
            header_contains,
            header_signature: None,
            priority,
        },
        encoding: "utf-8".into(),
        format: Format::Xlsx,
        sheet: Some(1),
        header_rows: 1,
        data_start_row: 2,
        skip_blank_id: true,
        fill_merged: false,
        id_cols: vec![IdCol {
            name: "caseid".into(),
            col: 1,
            header: None,
            kind: "string".into(),
        }],
        unpivot: Unpivot {
            anchor: "1日".into(),
            anchor_match: AnchorMatch::Exact,
            day_cols: 31,
            validate_calendar_day: true,
            var_name: "shift_hour".into(),
            value_name: "daily_kwh".into(),
            year_month_from: "filename:0..6".into(),
            anchor_col_observed: None,
        },
        value_rules: ValueRules {
            kind: ValueKind::Decimal,
            decimals: 4,
            missing_values: vec!["".into()],
            zero_is_valid: true,
            min: Some(DecimalValue { negative: false, magnitude: 0, scale: 0 }),
            max: Some(DecimalValue { negative: false, magnitude: 1_000_000, scale: 0 }),
        },
    };
    LoadedProfile {
        path: format!("synthetic/{}.json", name),
        profile,
    }
}

#[test]
fn routes_single_match_by_filename() {
    let reg = Registry::from_profiles(vec![
        make_profile("solar", "*發電量*.xlsx", 10, vec!["1日".into()]),
        make_profile("wind", "*風力*.xlsx", 10, vec!["1日".into()]),
    ]);
    let header: Vec<String> = vec!["案件編號".into(), "1日".into(), "31日".into()];
    let m = reg.route("202604_案場發電量.xlsx", &header).unwrap();
    assert_eq!(m.profile.name, "solar");
}

#[test]
fn no_match_returns_error() {
    let reg = Registry::from_profiles(vec![make_profile("solar", "*發電量*.xlsx", 10, vec![])]);
    let header: Vec<String> = vec![];
    let r = reg.route("invoice.xlsx", &header);
    assert!(r.is_err());
    assert!(matches!(r, Err(ProfileError::NoMatch { file }) if file == "invoice.xlsx"));
}

#[test]
fn priority_breaks_tie() {
    let reg = Registry::from_profiles(vec![
        make_profile("low", "*.xlsx", 1, vec![]),
        make_profile("high", "*.xlsx", 10, vec![]),
    ]);
    let m = reg.route("anything.xlsx", &[]).unwrap();
    assert_eq!(m.profile.name, "high");
    assert_eq!(m.path, "synthetic/high.json");
}

#[test]
fn header_contains_filters_loosely() {
    let reg = Registry::from_profiles(vec![
        make_profile("solar", "*.xlsx", 10, vec!["案件編號".into(), "1日".into()]),
    ]);
    let header_with: Vec<String> = vec!["案件編號".into(), "1日".into()];
    let header_without: Vec<String> = vec!["foo".into(), "bar".into()];
    assert!(reg.route("anything.xlsx", &header_with).is_ok());
    assert!(reg.route("anything.xlsx", &header_without).is_err());
}

#[test]
fn ambiguous_match_errors() {
    let reg = Registry::from_profiles(vec![
        make_profile("a", "*.xlsx", 5, vec![]),
        make_profile("b", "*.xlsx", 5, vec![]),
    ]);
    let r = reg.route("any.xlsx", &[]);
    assert!(r.is_err());
}

#[test]
fn ambiguous_lists_top_names_by_priority() {
    let reg = Registry::from_profiles(vec![
        make_profile("low", "*.xlsx", 1, vec![]),
        make_profile("a", "*.xlsx", 5, vec![]),
        make_profile("b", "*.xlsx", 5, vec![]),
    ]);
    match reg.route("any.xlsx", &[]) {
        Err(ProfileError::AmbiguousMatch { file, names }) => {
            assert_eq!(file, "any.xlsx");
            assert_eq!(names, vec!["a".to_string(), "b".to_string(), "low".to_string()]);
        }
        _ => panic!("expected an ambiguous match"),
    }
}

#[test]
fn signature_drift_is_reported_not_rejected() {
    let mut lp = make_profile("solar", "*.xlsx", 1, vec![]);
    lp.profile.match_rules.header_signature = Some("000000000000".into());
    let header: Vec<String> = vec!["a".into(), "b".into()];
    let reg = Registry::from_profiles(vec![lp]);
    let m = reg.route("x.xlsx", &header).unwrap();
    assert!(!m.signature_ok);
    assert_eq!(m.actual_signature, compute(&header));

    let mut lp = make_profile("solar", "*.xlsx", 1, vec![]);
    lp.profile.match_rules.header_signature = Some(compute(&header));
    let reg = Registry::from_profiles(vec![lp]);
    assert!(reg.route("x.xlsx", &header).unwrap().signature_ok);
}

#[test]
fn matches_checks_name_and_tokens() {
    let lp = make_profile("solar", "*.csv", 1, vec!["1日".into()]);
    let header: Vec<String> = vec!["id".into(), "1日".into()];
    assert!(solar_monitoring_import::profile::match_rules::matches(&lp.profile, "a.csv", &header));
    assert!(!solar_monitoring_import::profile::match_rules::matches(&lp.profile, "a.xlsx", &header));
    assert!(!solar_monitoring_import::profile::match_rules::matches(&lp.profile, "a.csv", &[]));
}

#[test]
fn registry_basics() {
    let empty = Registry::empty();
    assert!(empty.is_empty());
    assert_eq!(empty.len(), 0);
    let reg = Registry::from_profiles(vec![make_profile("a", "*", 0, vec![]), make_profile("b", "*", 0, vec![])]);
    assert_eq!(reg.len(), 2);
    let names: Vec<&str> = reg.iter().map(|lp| lp.profile.name.as_str()).collect();
    assert_eq!(names, vec!["a", "b"]);
}

#[test]
fn first_row_of_grid() {
    let g: Vec<Vec<String>> = vec![vec!["h".into()], vec!["d".into()]];
    assert_eq!(first_row(&g), vec!["h".to_string()]);
    assert_eq!(first_row(&Vec::new()), Vec::<String>::new());
}

#[test]
fn profile_files_are_json() {
    assert!(is_profile_file("profiles/solar_monthly.json"));
    assert!(!is_profile_file("profiles/README.md"));
    assert!(!is_profile_file("profiles/x.JSON"));
    assert!(!is_profile_file("profiles/.json"));
}

#[test]
fn year_month_from_filename() {
    let lp = make_profile("solar", "*", 0, vec![]);
    assert_eq!(lp.profile.extract_year_month("in/202604_x.xlsx").unwrap(), "202604");
    assert!(lp.profile.extract_year_month("in/2026_x.xlsx").is_err());
    let mut c = make_profile("c", "*", 0, vec![]);
    c.profile.unpivot.year_month_from = "constant: 202512 ".into();
    assert_eq!(c.profile.extract_year_month("whatever.csv").unwrap(), "202512");
    c.profile.unpivot.year_month_from = "folder:1".into();
    assert!(c.profile.extract_year_month("whatever.csv").is_err());
}

#[test]
fn id_columns() {
    let lp = make_profile("solar", "*", 0, vec![]);
    assert_eq!(lp.profile.caseid_col_index().unwrap(), 0);
    assert_eq!(lp.profile.plant_name_col_index(), None);
    assert_eq!(lp.profile.id_cols[0].index(), 0);
}
