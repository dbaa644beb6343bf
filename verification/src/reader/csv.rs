//! CSV text into a grid, through the `csv` crate.
use vstd::prelude::*;
use crate::grid::{Grid, grid_view};
use super::{FormatReader, ReadError};

verus! {

/// What the `csv` crate's reader (no header row, rows of any length) gives
/// for this text: the records' fields, or the message of the first error.
pub uninterp spec fn csv_records(text: Seq<char>) -> Result<Seq<Seq<Seq<char>>>, Seq<char>>;

/// Reads every record of the text with a `csv::ReaderBuilder` set to
/// `has_headers(false)` and `flexible(true)`. The contract claims only that
/// the fields (or the first error's message) are the ones named above.
#[verifier::external_body]
fn read_records(text: &str) -> (res: Result<Grid, String>)
    ensures
        match csv_records(text@) {
            Ok(g) => res matches Ok(x) && grid_view(x) == g,
            Err(m) => res matches Err(x) && x@ == m,
        },
{
    let mut rdr = csv::ReaderBuilder::new().has_headers(false).flexible(true).from_reader(text.as_bytes());
    rdr.records()
        .map(|r| r.map(|rec| rec.iter().map(|s| s.to_string()).collect::<Vec<String>>()))
        .collect::<Result<Grid, csv::Error>>()
        .map_err(|e| e.to_string())
}

/// Reads decoded CSV text into a grid.
#[derive(Debug, Default)]
pub struct CsvReader;

impl CsvReader {
    /// Reads decoded CSV text (`MissingText` without it) into a grid, one row
    /// per record; rows may differ in length.
    pub fn read_text(&self, text: Option<&str>) -> (res: Result<Grid, ReadError>)
        ensures
            match text {
                None => res matches Err(ReadError::MissingText),
                Some(t) => match csv_records(t@) {
                    Ok(g) => res matches Ok(x) && grid_view(x) == g,
                    Err(m) => res matches Err(ReadError::Csv(x)) && x@ == m,
                },
            },
    {
        match text {
            None => Err(ReadError::MissingText),
            Some(t) => match read_records(t) {
                Ok(g) => Ok(g),
                Err(m) => Err(ReadError::Csv(m)),
            },
        }
    }
}

impl FormatReader for CsvReader {
    /// Reads the decoded text; the path and the sheet play no part for CSV.
    fn read(&self, path: &str, text: Option<&str>, sheet: Option<u32>) -> (res: Result<Grid, ReadError>)
        ensures
            match text {
                None => res matches Err(ReadError::MissingText),
                Some(t) => match csv_records(t@) {
                    Ok(g) => res matches Ok(x) && grid_view(x) == g,
                    Err(m) => res matches Err(ReadError::Csv(x)) && x@ == m,
                },
            },
    {
        self.read_text(text)
    }
}

} // verus!
