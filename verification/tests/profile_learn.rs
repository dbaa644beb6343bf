use solar_monitoring_import::decimal::DecimalValue;
use solar_monitoring_import::grid::Grid;
use solar_monitoring_import::profile::learn::{
    decimals_of, default_value_rules, draft_name, is_day_token, learn, learn_structure, value_cells, ValueScan,
};
use solar_monitoring_import::profile::{AnchorMatch, LoadedProfile, Registry, ValueKind};
use solar_monitoring_import::reader::Format;

fn grid(rows: &[&[&str]]) -> Grid {
    rows.iter()
        .map(|r| r.iter().map(|s| s.to_string()).collect())
        .collect()
}

fn solar_template() -> Grid {
    let mut header: Vec<String> = vec!["caseid".into(), "plant".into(), "extra".into()];
    for d in 1..=31 {
        header.push(format!("{}日", d));
    }
    let mut g: Grid = vec![header];
    g.push(vec!["".into(), "".into(), "Total".into(), "100".into()]);
    g.push(vec!["A001".into(), "PlantA".into(), "x".into(), "10.5".into()]);
    g.push(vec!["A002".into(), "PlantB".into(), "x".into(), "20.123".into()]);
    g
}

#[test]
fn structure_solar_layout() {
    let g = solar_template();
    let draft = learn_structure(&g);
    assert_eq!(draft.anchor_col, 3);
    assert_eq!(draft.day_cols, 31);
    assert_eq!(draft.data_start_row, 3);
}

#[test]
fn structure_header_row_and_tokens() {
    let g = solar_template();
    let draft = learn_structure(&g);
    assert_eq!(draft.header_row, 1);
    assert_eq!(draft.anchor_value, "1日");
    assert_eq!(draft.header_contains, vec!["caseid".to_string(), "1日".to_string(), "31日".to_string()]);
    assert_eq!(draft.signature.len(), 12);
}

#[test]
fn structure_without_day_headers() {
    let g = grid(&[&["a", "b"], &["x", "y"]]);
    let draft = learn_structure(&g);
    assert_eq!(draft.header_row, 1);
    assert_eq!(draft.anchor_col, 0);
    assert_eq!(draft.day_cols, 0);
    assert_eq!(draft.data_start_row, 2);
    assert_eq!(draft.header_contains, vec!["a".to_string(), "1日".to_string()]);
}

#[test]
fn is_day_token_works() {
    assert!(is_day_token("1日"));
    assert!(is_day_token("31日"));
    assert!(!is_day_token("掛表日"));
    assert!(!is_day_token("日"));
}

#[test]
fn learn_drafts_profile() {
    let g = solar_template();
    let p = learn(&g, None, "solar", Format::Xlsx);
    assert_eq!(p.name, "solar");
    assert_eq!(p.match_rules.filename.as_deref(), Some("*.xlsx"));
    assert_eq!(p.encoding, "big5");
    assert_eq!(p.sheet, Some(1));
    assert_eq!(p.data_start_row, 3);
    assert_eq!(p.id_cols.len(), 2);
    assert_eq!(p.id_cols[0].header.as_deref(), Some("caseid"));
    assert_eq!(p.id_cols[1].header.as_deref(), Some("plant"));
    assert_eq!(p.unpivot.anchor, "1日");
    assert_eq!(p.unpivot.anchor_match, AnchorMatch::Exact);
    assert_eq!(p.unpivot.day_cols, 31);
    assert_eq!(p.unpivot.anchor_col_observed, Some(4));
    assert_eq!(p.unpivot.year_month_from, "filename:0..6");
    assert_eq!(p.value_rules.decimals, 4);
    let csv = learn(&g, None, "c", Format::Csv);
    assert_eq!(csv.match_rules.filename.as_deref(), Some("*.csv"));
    assert_eq!(csv.encoding, "utf-8");
}

#[test]
fn default_rules() {
    let r = default_value_rules();
    assert_eq!(r.kind, ValueKind::Decimal);
    assert_eq!(r.decimals, 4);
    assert_eq!(r.missing_values, vec!["", "-", "#DIV/0!", "#N/A", "#VALUE!"]);
    assert_eq!(r.min, Some(DecimalValue { negative: false, magnitude: 0, scale: 0 }));
    assert_eq!(r.max, Some(DecimalValue { negative: false, magnitude: 1_000_000, scale: 0 }));
}

#[test]
fn value_cells_of_sample() {
    let g = solar_template();
    let draft = learn_structure(&g);
    let cells = value_cells(&g, &draft);
    assert_eq!(cells, vec!["10.5".to_string(), "20.123".to_string()]);
}

#[test]
fn decimals_written() {
    assert_eq!(decimals_of("20.123"), 3);
    assert_eq!(decimals_of("1,234.5"), 1);
    assert_eq!(decimals_of("42"), 0);
    assert_eq!(decimals_of("7."), 0);
}

#[test]
fn scan_collects_unknown_tokens() {
    let mut scan = ValueScan::new();
    scan.record_number("10.5");
    scan.record_number("20.123");
    scan.record_unknown("n/a");
    scan.record_unknown("#N/A");
    scan.record_unknown("ERR");
    scan.record_unknown("n/a");
    assert_eq!(scan.decimals(), 3);
    assert_eq!(
        scan.missing_values(),
        vec!["", "-", "#DIV/0!", "#N/A", "#VALUE!", "ERR", "n/a"]
    );
}

#[test]
fn draft_names() {
    assert_eq!(draft_name(Some("foo".into()), "t/structure.xlsx"), "foo");
    assert_eq!(draft_name(None, "templates/foo/structure.xlsx"), "structure");
    assert_eq!(draft_name(None, ""), "unnamed");
}

#[test]
fn drafted_profile_accepts_its_template() {
    let g = solar_template();
    let p = learn(&g, None, "solar", Format::Xlsx);
    let reg = Registry::from_profiles(vec![LoadedProfile { path: "profiles/solar.json".into(), profile: p }]);
    assert!(solar_monitoring_import::profile::match_rules::matches(&reg.iter().next().unwrap().profile, "any.xlsx", &g[0]));
    let m = reg.route("202604_template.xlsx", &g[0]).unwrap();
    assert!(m.signature_ok);
    assert_eq!(m.profile.name, "solar");
}
