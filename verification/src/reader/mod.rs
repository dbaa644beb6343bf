//! File formats and the readers that turn a file into a grid.
pub mod csv;

use vstd::prelude::*;
use crate::path::{extension, file_name_chars, extension_of_name_chars};
use crate::text::{chars_of, chars_equal_str};
use crate::grid::Grid;

verus! {

/// The layout of an input file.
#[derive(Clone, Copy, Debug, PartialEq, Eq, Hash, Structural)]
pub enum Format {
    Csv,
    Xlsx,
}

/// ASCII letters made lower case, other characters kept (`to_ascii_lowercase`).
pub open spec fn ascii_lower_char(c: char) -> char {
    if 'A' <= c && c <= 'Z' {
        ((c as int) + 32) as char
    } else {
        c
    }
}

pub open spec fn ascii_lower(s: Seq<char>) -> Seq<char> {
    s.map_values(|c: char| ascii_lower_char(c))
}

pub fn to_ascii_lowercase(s: &Vec<char>) -> (res: Vec<char>)
    ensures
        res@ == ascii_lower(s@),
{
    let mut out: Vec<char> = Vec::new();
    let mut i: usize = 0;
    while i < s.len()
        invariant
            i <= s.len(),
            out@ =~= ascii_lower(s@.subrange(0, i as int)),
        decreases s.len() - i,
    {
        let c = s[i];
        let l = if 'A' <= c && c <= 'Z' {
            ((c as u32) + 32) as u8 as char
        } else {
            c
        };
        proof {
            if 'A' <= c && c <= 'Z' {
                assert((c as u32) + 32 < 256);
            }
            assert(ascii_lower(s@.subrange(0, i + 1)) =~= ascii_lower(s@.subrange(0, i as int)).push(
                ascii_lower_char(c),
            ));
        }
        out.push(l);
        i = i + 1;
    }
    proof {
        assert(s@.subrange(0, s.len() as int) =~= s@);
    }
    out
}

/// The format named by a lower-cased file extension.
pub open spec fn format_of_ext(ext: Seq<char>) -> Option<Format> {
    if ext == "csv"@ {
        Some(Format::Csv)
    } else if ext == "xlsx"@ || ext == "xlsm"@ {
        Some(Format::Xlsx)
    } else {
        None
    }
}

/// The format of a path by its extension, letters compared without case.
pub open spec fn format_of_path(p: Seq<char>) -> Option<Format> {
    match extension(p) {
        Some(e) => format_of_ext(ascii_lower(e)),
        None => None,
    }
}

impl Format {
    /// `csv` → CSV, `xlsx` / `xlsm` → XLSX (any letter case), anything else
    /// (or no extension) → none.
    pub fn from_path(path: &str) -> (res: Option<Format>)
        ensures
            res == format_of_path(path@),
    {
        let p = chars_of(path);
        let name = match file_name_chars(&p) {
            Some(n) => n,
            None => return None,
        };
        let ext = match extension_of_name_chars(&name) {
            Some(e) => e,
            None => return None,
        };
        let lower = to_ascii_lowercase(&ext);
        if chars_equal_str(&lower, "csv") {
            Some(Format::Csv)
        } else if chars_equal_str(&lower, "xlsx") || chars_equal_str(&lower, "xlsm") {
            Some(Format::Xlsx)
        } else {
            None
        }
    }

    /// Only CSV is text that must be decoded first.
    pub fn needs_text_decode(self) -> (res: bool)
        ensures
            res == (self == Format::Csv),
    {
        match self {
            Format::Csv => true,
            Format::Xlsx => false,
        }
    }
}

/// Failures of the readers.
#[derive(Debug)]
pub enum ReadError {
    /// CSV was read before the bytes were decoded to text.
    MissingText,
    /// The CSV text is malformed (the parser's message).
    Csv(String),
    /// The workbook has no sheets.
    NoSheets,
    /// The requested sheet (0-indexed) is past the last of `count` sheets.
    SheetOutOfRange { index: usize, count: usize },
    /// The workbook could not be opened or read (the library's message).
    Workbook(String),
}

/// Reads a file of one format into a grid. `text` is the decoded text of a
/// CSV file (ignored for XLSX); `sheet` is 1-indexed and used by XLSX only.
pub trait FormatReader {
    fn read(&self, path: &str, text: Option<&str>, sheet: Option<u32>) -> Result<Grid, ReadError>;
}

/// The 0-indexed sheet a 1-indexed sheet number selects (the first sheet
/// when none is given; 0 counts as 1), among `count` sheets.
pub open spec fn sheet_index_spec(sheet: Option<u32>, count: nat) -> Result<nat, (nat, nat)> {
    let idx: nat = match sheet {
        Some(s) => if s >= 1 { (s - 1) as nat } else { 0 },
        None => 0,
    };
    if count == 0 {
        Err((0, 0))
    } else if idx >= count {
        Err((idx, count))
    } else {
        Ok(idx)
    }
}

/// Picks the sheet of a workbook with `count` sheets: `NoSheets` for an empty
/// workbook, `SheetOutOfRange` past the last sheet.
pub fn sheet_index(sheet: Option<u32>, count: usize) -> (res: Result<usize, ReadError>)
    ensures
        match sheet_index_spec(sheet, count as nat) {
            Ok(i) => res matches Ok(x) && x == i,
            Err((i, n)) => if n == 0 {
                res matches Err(ReadError::NoSheets)
            } else {
                res matches Err(ReadError::SheetOutOfRange { index, count: c }) && index == i && c == n
            },
        },
{
    if count == 0 {
        return Err(ReadError::NoSheets);
    }
    let idx: usize = match sheet {
        Some(s) => if s >= 1 { (s - 1) as usize } else { 0 },
        None => 0,
    };
    if idx >= count {
        Err(ReadError::SheetOutOfRange { index: idx, count })
    } else {
        Ok(idx)
    }
}

} // verus!
