use solar_monitoring_import::reader::csv::CsvReader;
use solar_monitoring_import::reader::{sheet_index, Format, FormatReader, ReadError};

#[test]
fn reads_simple_csv() {
    let r = CsvReader;
    let grid = r.read("dummy.csv", Some("a,b,c\n1,2,3\n"), None).unwrap();
    assert_eq!(grid, vec![
        vec!["a".to_string(), "b".to_string(), "c".to_string()],
        vec!["1".to_string(), "2".to_string(), "3".to_string()],
    ]);
}

#[test]
fn flexible_rows() {
    let r = CsvReader;
    let grid = r.read("d.csv", Some("a,b\n1,2,3\n"), None).unwrap();
    assert_eq!(grid[0].len(), 2);
    assert_eq!(grid[1].len(), 3);
}

#[test]
fn csv_needs_text() {
    assert!(matches!(CsvReader.read("d.csv", None, None), Err(ReadError::MissingText)));
}

#[test]
fn quoted_fields() {
    let grid = CsvReader.read_text(Some("\"a,b\",c\n")).unwrap();
    assert_eq!(grid, vec![vec!["a,b".to_string(), "c".to_string()]]);
}

#[test]
fn formats_by_extension() {
    assert_eq!(Format::from_path("in/a.csv"), Some(Format::Csv));
    assert_eq!(Format::from_path("in/a.CSV"), Some(Format::Csv));
    assert_eq!(Format::from_path("in/a.xlsx"), Some(Format::Xlsx));
    assert_eq!(Format::from_path("in/a.XlSm"), Some(Format::Xlsx));
    assert_eq!(Format::from_path("in/a.txt"), None);
    assert_eq!(Format::from_path("in/csv"), None);
    assert_eq!(Format::from_path("in/.csv"), None);
    assert!(Format::Csv.needs_text_decode());
    assert!(!Format::Xlsx.needs_text_decode());
}

#[test]
fn sheet_selection() {
    assert_eq!(sheet_index(None, 3).unwrap(), 0);
    assert_eq!(sheet_index(Some(1), 3).unwrap(), 0);
    assert_eq!(sheet_index(Some(3), 3).unwrap(), 2);
    assert_eq!(sheet_index(Some(0), 3).unwrap(), 0);
    assert!(matches!(sheet_index(Some(4), 3), Err(ReadError::SheetOutOfRange { index: 3, count: 3 })));
    assert!(matches!(sheet_index(Some(1), 0), Err(ReadError::NoSheets)));
}
