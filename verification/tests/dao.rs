use solar_monitoring_import::config::DatabaseCfg;
use solar_monitoring_import::dao::mssql::{chunk_bounds, SqlServerDao, INSERT_CHUNK};
use solar_monitoring_import::dao::ado::has_trust_conflict;
use solar_monitoring_import::dao::{make_dao, validate_table_name};
use solar_monitoring_import::error::DaoError;

#[test]
fn validate_ok() {
    assert!(validate_table_name("dev_kwh_test").is_ok());
    assert!(validate_table_name("ABC123").is_ok());
}

#[test]
fn validate_rejects_unsafe() {
    assert!(validate_table_name("").is_err());
    assert!(validate_table_name("a;b").is_err());
    assert!(validate_table_name("foo bar").is_err());
    assert!(validate_table_name("foo]").is_err());
    assert!(validate_table_name("中文表").is_err());
}

#[test]
fn table_name_length_limits() {
    let max = "a".repeat(128);
    let over = "a".repeat(129);
    assert!(validate_table_name(&max).is_ok());
    assert!(matches!(validate_table_name(&over), Err(DaoError::InvalidTable(n)) if n == over));
}

fn cfg(target: &str, conn: &str, table: &str, enabled: Vec<(String, bool)>) -> DatabaseCfg {
    DatabaseCfg {
        target: target.into(),
        conn: conn.into(),
        table: table.into(),
        enabled,
    }
}

const ADO: &str = "server=tcp:localhost,1433;user=sa;password=x;TrustServerCertificate=true";

#[test]
fn gate_closed_without_entry() {
    let c = cfg("mssql", ADO, "t1", vec![]);
    assert!(!c.is_enabled("mssql"));
    assert!(matches!(make_dao(&c), Err(DaoError::GateClosed(t)) if t == "mssql"));
}

#[test]
fn gate_closed_when_false() {
    let c = cfg("mssql", ADO, "t1", vec![("mssql".into(), false)]);
    assert!(matches!(make_dao(&c), Err(DaoError::GateClosed(_))));
}

#[test]
fn unknown_target_not_implemented() {
    let c = cfg("postgres", ADO, "t1", vec![("postgres".into(), true)]);
    assert!(matches!(make_dao(&c), Err(DaoError::NotImplemented(t)) if t == "postgres"));
}

#[test]
fn mssql_with_open_gate_builds() {
    let c = cfg("mssql", ADO, "dev_kwh", vec![("mssql".into(), true)]);
    let d = make_dao(&c).unwrap();
    assert_eq!(d.table, "dev_kwh");
    assert_eq!(d.ado, ADO);
}

#[test]
fn bad_table_refused_before_connection_string() {
    let c = cfg("mssql", ADO, "bad table", vec![("mssql".into(), true)]);
    assert!(matches!(make_dao(&c), Err(DaoError::InvalidTable(t)) if t == "bad table"));
}

#[test]
fn create_table_sql_names_table() {
    let d = SqlServerDao::new(ADO, "dev_kwh").unwrap();
    let sql = d.create_table_sql();
    assert!(sql.starts_with("CREATE TABLE [dev_kwh] ("));
    assert!(sql.contains("daily_kwh  DECIMAL(18,4) NULL"));
}

#[test]
fn insert_sql_numbers_parameters() {
    let d = SqlServerDao::new(ADO, "t").unwrap();
    assert_eq!(
        d.insert_sql(2),
        "INSERT INTO [t] (caseid, plant_name, shift_hour, daily_kwh) VALUES (@P1,@P2,@P3,@P4),(@P5,@P6,@P7,@P8)"
    );
    assert_eq!(d.insert_sql(0), "INSERT INTO [t] (caseid, plant_name, shift_hour, daily_kwh) VALUES ");
}

#[test]
fn chunks_of_rows() {
    assert_eq!(chunk_bounds(0, INSERT_CHUNK), vec![]);
    assert_eq!(chunk_bounds(500, INSERT_CHUNK), vec![(0, 500)]);
    assert_eq!(chunk_bounds(1201, INSERT_CHUNK), vec![(0, 500), (500, 1000), (1000, 1201)]);
    assert_eq!(chunk_bounds(7, 3), vec![(0, 3), (3, 6), (6, 7)]);
}

#[test]
fn bad_connection_string_refused() {
    match SqlServerDao::new("server=a,b,c", "t") {
        Err(DaoError::Db(m)) => assert_eq!(m, "parsing connection string: Conversion error: Server value faulty."),
        other => panic!("expected a connection string error, got {:?}", other),
    }
}

#[test]
fn both_trust_options_refused() {
    let conn = "server=tcp:h;TrustServerCertificate=true;TrustServerCertificateCA=/c.pem";
    match SqlServerDao::new(conn, "t") {
        Err(DaoError::Db(m)) => assert_eq!(
            m,
            "parsing connection string: TrustServerCertificate and TrustServerCertificateCA are mutually exclusive"
        ),
        other => panic!("expected the trust options to be refused, got {:?}", other),
    }
    let yes = "server=tcp:h; trustservercertificate = YES ;TRUSTSERVERCERTIFICATECA=/c.pem";
    assert!(matches!(SqlServerDao::new(yes, "t"), Err(DaoError::Db(_))));
}

#[test]
fn single_trust_option_accepted() {
    assert!(SqlServerDao::new("server=tcp:h;TrustServerCertificate=true", "t").is_ok());
    assert!(SqlServerDao::new("server=tcp:h;TrustServerCertificateCA=/c.pem", "t").is_ok());
    assert!(SqlServerDao::new("server=tcp:h;TrustServerCertificate=false;TrustServerCertificateCA=/c.pem", "t").is_ok());
}

#[test]
fn trust_conflict_detection() {
    assert!(has_trust_conflict("TrustServerCertificate=true;TrustServerCertificateCA=x"));
    assert!(!has_trust_conflict("TrustServerCertificate=true"));
    assert!(!has_trust_conflict("TrustServerCertificate=no;TrustServerCertificateCA=x"));
    // With braces the key text alone decides.
    assert!(has_trust_conflict("{TrustServerCertificateCA}=x;TrustServerCertificate=false"));
}
