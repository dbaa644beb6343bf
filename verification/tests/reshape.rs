use solar_monitoring_import::decimal::DecimalValue;
use solar_monitoring_import::error::ReshapeError;
use solar_monitoring_import::grid::{cell, cell_trim, Grid};
use solar_monitoring_import::profile::{
    AnchorMatch, IdCol, MatchRules, Profile, Unpivot, ValueKind, ValueRules,
};
use solar_monitoring_import::reader::Format;
use solar_monitoring_import::reshape::anchor::find;
use solar_monitoring_import::reshape::apply;
use solar_monitoring_import::reshape::calendar::{is_valid, parse_ym};
use solar_monitoring_import::reshape::cast::{cast_value, check_range};
use solar_monitoring_import::reshape::header::promote;
use solar_monitoring_import::reshape::unpivot::make_row;

fn dec(magnitude: u128, scale: u32) -> DecimalValue {
    DecimalValue { negative: false, magnitude, scale }
}

fn hdr() -> Vec<String> {
    vec!["案件編號", "案件名稱", "掛表日", "1日", "2日", "3日"]
        .into_iter()
        .map(String::from)
        .collect()
}

#[test]
fn exact_match_skips_decoy() {
    let h = hdr();
    let col = find(&h, "1日", AnchorMatch::Exact).unwrap();
    assert_eq!(col, 3);
}

#[test]
fn exact_would_miss_decoy() {
    let h = hdr();
    let r = find(&h, "掛表日", AnchorMatch::Exact);
    assert_eq!(r.unwrap(), 2);
}

#[test]
fn not_found() {
    let h = hdr();
    let r = find(&h, "999日", AnchorMatch::Exact);
    assert!(matches!(r, Err(ReshapeError::AnchorMissing { .. })));
}

#[test]
fn contains_finds_first_holder() {
    let h = hdr();
    assert_eq!(find(&h, "日", AnchorMatch::Contains).unwrap(), 2);
    assert!(matches!(find(&h, "月", AnchorMatch::Contains), Err(ReshapeError::AnchorMissing { anchor, strategy }) if anchor == "月" && strategy == "Contains"));
}

#[test]
fn april_thirtyone_invalid() {
    assert!(!is_valid("202604", 31));
    assert!(is_valid("202604", 30));
}

#[test]
fn feb_leap_year() {
    assert!(is_valid("202402", 29));
    assert!(!is_valid("202502", 29));
    assert!(is_valid("202402", 28));
}

#[test]
fn march_thirty_one() {
    assert!(is_valid("202603", 31));
}

#[test]
fn bad_ym() {
    assert!(!is_valid("20260", 1));
    assert!(!is_valid("202613", 1));
    assert!(!is_valid("XXXX01", 1));
}

#[test]
fn century_leap_rules() {
    assert!(is_valid("200002", 29));
    assert!(!is_valid("190002", 29));
    assert!(!is_valid("202601", 0));
    assert_eq!(parse_ym("202604"), Some((2026, 4)));
    assert_eq!(parse_ym("202600"), None);
}

fn rules() -> ValueRules {
    ValueRules {
        kind: ValueKind::Decimal,
        decimals: 4,
        missing_values: vec!["".into(), "-".into(), "#N/A".into()],
        zero_is_valid: true,
        min: Some(dec(0, 0)),
        max: Some(dec(1_000_000, 0)),
    }
}

#[test]
fn missing_returns_none() {
    assert!(cast_value("", &rules(), 0, 0).unwrap().is_none());
    assert!(cast_value("-", &rules(), 0, 0).unwrap().is_none());
    assert!(cast_value("#N/A", &rules(), 0, 0).unwrap().is_none());
    assert!(cast_value("  ", &rules(), 0, 0).unwrap().is_none());
}

#[test]
fn decimal_parses() {
    let v = cast_value("403.4016", &rules(), 0, 0).unwrap().unwrap();
    assert_eq!(v.to_string(), "403.4016");
}

#[test]
fn zero_allowed() {
    let v = cast_value("0", &rules(), 0, 0).unwrap().unwrap();
    assert!(v.is_zero());
}

#[test]
fn negative_out_of_range() {
    let r = cast_value("-1", &rules(), 0, 0);
    assert!(matches!(r, Err(ReshapeError::OutOfRange { .. })));
}

#[test]
fn comma_thousands_separator_stripped() {
    let v = cast_value("1,234.56", &rules(), 0, 0).unwrap().unwrap();
    assert_eq!(v.to_string(), "1234.56");
}

#[test]
fn unparseable_errors() {
    let r = cast_value("abc", &rules(), 0, 0);
    assert!(matches!(r, Err(ReshapeError::Cast { .. })));
}

#[test]
fn cast_edge_cases() {
    // The upper bound is inclusive; just above it is out of range.
    assert!(cast_value("1000000", &rules(), 0, 0).unwrap().is_some());
    assert!(matches!(cast_value("1000000.01", &rules(), 4, 7), Err(ReshapeError::OutOfRange { row: 4, col: 7, .. })));
    let mut no_zero = rules();
    no_zero.zero_is_valid = false;
    assert!(matches!(cast_value("0.00", &no_zero, 0, 0), Err(ReshapeError::Cast { kind, .. }) if kind == "zero_is_valid=false"));
    let mut text = rules();
    text.kind = ValueKind::String;
    assert!(cast_value("abc", &text, 0, 0).unwrap().is_none());
    assert!(matches!(cast_value("x", &rules(), 1, 2), Err(ReshapeError::Cast { row: 1, col: 2, value, kind }) if value == "x" && kind == "Decimal"));
    let v = cast_value(" 12.50 ", &rules(), 0, 0).unwrap().unwrap();
    assert_eq!(v, DecimalValue { negative: false, magnitude: 1250, scale: 2 });
}

fn g(rows: &[&[&str]]) -> Grid {
    rows.iter()
        .map(|r| r.iter().map(|s| s.to_string()).collect())
        .collect()
}

#[test]
fn single_row_passthrough() {
    let grid = g(&[&["a", "b", "c"], &["1", "2", "3"]]);
    assert_eq!(promote(&grid, 1, false), vec!["a", "b", "c"]);
}

#[test]
fn empty_header_rows() {
    let grid = g(&[&["a", "b"]]);
    assert_eq!(promote(&grid, 0, false), Vec::<String>::new());
}

#[test]
fn two_row_with_ffill() {
    let grid = g(&[&["G1", "", "G2", ""], &["A", "B", "C", "D"]]);
    let h = promote(&grid, 2, true);
    assert_eq!(h, vec!["G1/A", "G1/B", "G2/C", "G2/D"]);
}

#[test]
fn two_row_no_ffill() {
    let grid = g(&[&["G1", "", "G2", ""], &["A", "B", "C", "D"]]);
    let h = promote(&grid, 2, false);
    assert_eq!(h, vec!["G1/A", "B", "G2/C", "D"]);
}

#[test]
fn promote_more_rows_than_grid() {
    let grid = g(&[&[" G1 ", ""], &["A"]]);
    assert_eq!(promote(&grid, 3, true), vec!["G1/A", "G1"]);
    assert_eq!(promote(&Vec::new(), 2, true), Vec::<String>::new());
}

#[test]
fn grid_cells() {
    let grid = g(&[&[" a ", "b"], &[]]);
    assert_eq!(cell(&grid, 0, 0), Some(" a "));
    assert_eq!(cell(&grid, 1, 0), None);
    assert_eq!(cell_trim(&grid, 0, 0), "a");
    assert_eq!(cell_trim(&grid, 5, 5), "");
}

#[test]
fn rows_made_with_two_digit_day() {
    let r = make_row("A001", Some("PlantA"), "202604", 1, None);
    assert_eq!(r.shift_hour, "20260401");
    assert_eq!(r.caseid, "A001");
    assert_eq!(r.plant_name.as_deref(), Some("PlantA"));
    assert_eq!(make_row("A", None, "202604", 30, None).shift_hour, "20260430");
}

fn solar_profile() -> Profile {
    Profile {
        name: "test".into(),
        match_rules: MatchRules {
            filename: None,
            header_contains: vec![],
            header_signature: None,
            priority: 0,
        },
        encoding: "utf-8".into(),
        format: Format::Csv,
        sheet: None,
        header_rows: 1,
        data_start_row: 3,
        skip_blank_id: true,
        fill_merged: false,
        id_cols: vec![
            IdCol {
                name: "caseid".into(),
                col: 1,
                header: None,
                kind: "string".into(),
            },
            IdCol {
                name: "plant_name".into(),
                col: 2,
                header: None,
                kind: "string".into(),
            },
        ],
        unpivot: Unpivot {
            anchor: "1日".into(),
            anchor_match: AnchorMatch::Exact,
            day_cols: 31,
            validate_calendar_day: true,
            var_name: "shift_hour".into(),
            value_name: "daily_kwh".into(),
            year_month_from: "filename:0..6".into(),
            anchor_col_observed: None,
        },
        value_rules: ValueRules {
            kind: ValueKind::Decimal,
            decimals: 4,
            missing_values: vec!["".into(), "-".into()],
            zero_is_valid: true,
            min: Some(dec(0, 0)),
            max: Some(dec(1_000_000, 0)),
        },
    }
}

fn build_grid_31() -> Grid {
    let mut header: Vec<String> = vec!["案件編號".into(), "案件名稱".into()];
    for d in 1..=31 {
        header.push(format!("{}日", d));
    }
    let mut totals: Vec<String> = vec!["".into(), "".into()];
    for _ in 1..=31 {
        totals.push("99".into());
    }
    let mut data: Vec<String> = vec!["A001".into(), "PlantA".into()];
    for d in 1..=31 {
        data.push(format!("{}.5", d));
    }
    vec![header, totals, data]
}

#[test]
fn mod_april_drops_day_31() {
    let g = build_grid_31();
    let rows = apply(&g, &solar_profile(), "202604").unwrap();
    assert_eq!(rows.len(), 30);
    assert_eq!(rows.first().unwrap().shift_hour, "20260401");
    assert_eq!(rows.last().unwrap().shift_hour, "20260430");
}

#[test]
fn march_keeps_day_31() {
    let g = build_grid_31();
    let rows = apply(&g, &solar_profile(), "202603").unwrap();
    assert_eq!(rows.len(), 31);
    assert_eq!(rows.last().unwrap().shift_hour, "20260331");
}

#[test]
fn skip_blank_id() {
    let mut g = build_grid_31();
    // Add a blank-id row
    let mut blank: Vec<String> = vec!["".into(), "".into()];
    for _ in 1..=31 {
        blank.push("".into());
    }
    g.push(blank);
    let rows = apply(&g, &solar_profile(), "202603").unwrap();
    assert_eq!(rows.len(), 31);
}

#[test]
fn apply_values_and_plant() {
    let g = build_grid_31();
    let rows = apply(&g, &solar_profile(), "202603").unwrap();
    assert_eq!(rows[0].caseid, "A001");
    assert_eq!(rows[0].plant_name.as_deref(), Some("PlantA"));
    assert_eq!(rows[0].daily_kwh, Some(dec(15, 1)));
    assert_eq!(rows[30].daily_kwh, Some(dec(315, 1)));
}

#[test]
fn apply_errors() {
    let g = build_grid_31();
    assert!(matches!(apply(&g, &solar_profile(), "2026-4"), Err(ReshapeError::BadYearMonth(s)) if s == "2026-4"));
    let mut p = solar_profile();
    p.unpivot.anchor = "第1日".into();
    assert!(matches!(apply(&g, &p, "202603"), Err(ReshapeError::AnchorMissing { .. })));
    let mut p = solar_profile();
    p.id_cols.clear();
    assert!(matches!(apply(&g, &p, "202603"), Err(ReshapeError::BadProfile(_))));
    let mut bad = build_grid_31();
    bad[2][5] = "oops".into();
    assert!(matches!(apply(&bad, &solar_profile(), "202603"), Err(ReshapeError::Cast { row: 2, col: 5, .. })));
}

#[test]
fn apply_without_calendar_check_keeps_all_days() {
    let g = build_grid_31();
    let mut p = solar_profile();
    p.unpivot.validate_calendar_day = false;
    let rows = apply(&g, &p, "202604").unwrap();
    assert_eq!(rows.len(), 31);
    assert_eq!(rows[30].shift_hour, "20260431");
}

#[test]
fn range_checks_on_parsed_values() {
    let neg = DecimalValue { negative: true, magnitude: 1, scale: 0 };
    assert!(matches!(check_range(&neg, &rules(), 3, 4, "-1"), Err(ReshapeError::OutOfRange { row: 3, col: 4, value, .. }) if value == "-1"));
    assert!(check_range(&dec(0, 0), &rules(), 0, 0, "0").is_ok());
    assert!(check_range(&dec(100000000, 2), &rules(), 0, 0, "1000000.00").is_ok());
    assert!(check_range(&dec(100000001, 2), &rules(), 0, 0, "1000000.01").is_err());
    let mut no_zero = rules();
    no_zero.zero_is_valid = false;
    assert!(matches!(check_range(&dec(0, 3), &no_zero, 0, 0, "0.000"), Err(ReshapeError::Cast { .. })));
}

#[test]
fn one_row_per_case_and_real_day() {
    let mut g = build_grid_31();
    let mut second: Vec<String> = vec!["A002".into(), "".into()];
    for d in 1..=31 {
        second.push(format!("{}", d));
    }
    g.push(second);
    let rows = apply(&g, &solar_profile(), "202604").unwrap();
    assert_eq!(rows.len(), 2 * 30);
    assert_eq!(rows[30].caseid, "A002");
    assert_eq!(rows[30].plant_name, None);
    let rows = apply(&g, &solar_profile(), "202402").unwrap();
    assert_eq!(rows.len(), 2 * 29);
}

#[test]
fn decimal_text() {
    assert_eq!(DecimalValue { negative: false, magnitude: 5, scale: 2 }.to_string(), "0.05");
    assert_eq!(DecimalValue { negative: true, magnitude: 12, scale: 0 }.to_string(), "-12");
    assert_eq!(DecimalValue { negative: false, magnitude: 0, scale: 3 }.to_string(), "0.000");
    assert_eq!(DecimalValue { negative: false, magnitude: 0, scale: 0 }.to_string(), "0");
    assert_eq!(DecimalValue { negative: false, magnitude: 1234, scale: 1 }.to_string(), "123.4");
}
