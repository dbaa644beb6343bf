use solar_monitoring_import::config::{with_password, DatabaseCfg};

#[test]
fn password_replaces_placeholder() {
    assert_eq!(
        with_password("server=h;password=<REPLACED_BY_ENV>;user=u", "s3cret"),
        "server=h;password=s3cret;user=u"
    );
    assert_eq!(with_password("a<REPLACED_BY_ENV>b<REPLACED_BY_ENV>", "x"), "axbx");
    assert_eq!(with_password("server=h;password=p", "x"), "server=h;password=p");
}

#[test]
fn gate_table_lookup() {
    let cfg = DatabaseCfg {
        target: "mssql".into(),
        conn: String::new(),
        table: "t".into(),
        enabled: vec![("mssql".into(), true), ("pg".into(), false)],
    };
    assert!(cfg.is_enabled("mssql"));
    assert!(!cfg.is_enabled("pg"));
    assert!(!cfg.is_enabled("oracle"));
}

#[test]
fn switch_keys_distinct() {
    let mut cfg = DatabaseCfg {
        target: "mssql".into(),
        conn: String::new(),
        table: "t".into(),
        enabled: vec![("mssql".into(), true), ("pg".into(), false)],
    };
    assert!(cfg.switches_distinct());
    cfg.enabled.push(("mssql".into(), false));
    assert!(!cfg.switches_distinct());
    // The first entry decides.
    assert!(cfg.is_enabled("mssql"));
}
