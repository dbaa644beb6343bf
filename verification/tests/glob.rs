use solar_monitoring_import::profile::match_rules::glob_match;

#[test]
fn glob_basic() {
    assert!(glob_match("*.xlsx", "x.xlsx"));
    assert!(glob_match("*發電量*.xlsx", "202604_案場發電量_v1.xlsx"));
    assert!(!glob_match("*發電量*.xlsx", "202604_案場營收_v1.xlsx"));
    assert!(glob_match("foo?.csv", "foo1.csv"));
    assert!(!glob_match("foo?.csv", "foo12.csv"));
}

#[test]
fn glob_anchored() {
    assert!(glob_match("a*z", "az"));
    assert!(glob_match("a*z", "abcz"));
    assert!(!glob_match("a*z", "abc"));
}

#[test]
fn glob_edge_cases() {
    assert!(glob_match("", ""));
    assert!(!glob_match("", "a"));
    assert!(glob_match("*", ""));
    assert!(glob_match("**", "abc"));
    assert!(!glob_match("?", ""));
    assert!(glob_match("a*b*c", "aXbYbZc"));
}

#[test]
fn literal_pattern_matches_only_itself() {
    assert!(glob_match("report.csv", "report.csv"));
    assert!(!glob_match("report.csv", "report.csv.bak"));
    assert!(!glob_match("report.csv", "Report.csv"));
}

#[test]
fn question_mark_takes_one_character() {
    assert!(glob_match("foo?.csv", "foo中.csv"));
    assert!(!glob_match("foo?.csv", "foo中中.csv"));
    assert!(glob_match("??.csv", "案場.csv"));
}
