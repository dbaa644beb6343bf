//! Error types of the library, each with a view over character sequences so
//! that contracts can say exactly which error comes back.
use vstd::prelude::*;
use crate::decimal::DecimalValue;

verus! {

/// Errors while reshaping a grid into rows.
#[derive(Debug)]
pub enum ReshapeError {
    AnchorMissing { anchor: String, strategy: String },
    InvalidDate { y: i32, m: u32, d: u32, col: usize },
    OutOfRange {
        row: usize,
        col: usize,
        value: String,
        min: Option<DecimalValue>,
        max: Option<DecimalValue>,
    },
    Cast { row: usize, col: usize, value: String, kind: String },
    BadProfile(String),
    BadYearMonth(String),
}

/// A `ReshapeError` with its strings taken by their characters.
pub enum ReshapeErrorView {
    AnchorMissing { anchor: Seq<char>, strategy: Seq<char> },
    InvalidDate { y: i32, m: u32, d: u32, col: usize },
    OutOfRange {
        row: usize,
        col: usize,
        value: Seq<char>,
        min: Option<DecimalValue>,
        max: Option<DecimalValue>,
    },
    Cast { row: usize, col: usize, value: Seq<char>, kind: Seq<char> },
    BadProfile(Seq<char>),
    BadYearMonth(Seq<char>),
}

impl View for ReshapeError {
    type V = ReshapeErrorView;

    open spec fn view(&self) -> ReshapeErrorView {
        match self {
            ReshapeError::AnchorMissing { anchor, strategy } => ReshapeErrorView::AnchorMissing {
                anchor: anchor@,
                strategy: strategy@,
            },
            ReshapeError::InvalidDate { y, m, d, col } => ReshapeErrorView::InvalidDate {
                y: *y,
                m: *m,
                d: *d,
                col: *col,
            },
            ReshapeError::OutOfRange { row, col, value, min, max } => ReshapeErrorView::OutOfRange {
                row: *row,
                col: *col,
                value: value@,
                min: *min,
                max: *max,
            },
            ReshapeError::Cast { row, col, value, kind } => ReshapeErrorView::Cast {
                row: *row,
                col: *col,
                value: value@,
                kind: kind@,
            },
            ReshapeError::BadProfile(s) => ReshapeErrorView::BadProfile(s@),
            ReshapeError::BadYearMonth(s) => ReshapeErrorView::BadYearMonth(s@),
        }
    }
}

/// Errors while choosing or building a database access object.
#[derive(Debug)]
pub enum DaoError {
    GateClosed(String),
    NotImplemented(String),
    InvalidTable(String),
    Db(String),
}

pub enum DaoErrorView {
    GateClosed(Seq<char>),
    NotImplemented(Seq<char>),
    InvalidTable(Seq<char>),
    Db(Seq<char>),
}

impl View for DaoError {
    type V = DaoErrorView;

    open spec fn view(&self) -> DaoErrorView {
        match self {
            DaoError::GateClosed(s) => DaoErrorView::GateClosed(s@),
            DaoError::NotImplemented(s) => DaoErrorView::NotImplemented(s@),
            DaoError::InvalidTable(s) => DaoErrorView::InvalidTable(s@),
            DaoError::Db(s) => DaoErrorView::Db(s@),
        }
    }
}

/// Errors while loading or routing profiles.
#[derive(Debug)]
pub enum ProfileError {
    NoMatch { file: String },
    AmbiguousMatch { file: String, names: Vec<String> },
    SignatureDrift { profile: String, expected: String, actual: String },
    Io(String, String),
    Json(String, String),
}

pub enum ProfileErrorView {
    NoMatch { file: Seq<char> },
    AmbiguousMatch { file: Seq<char>, names: Seq<Seq<char>> },
    SignatureDrift { profile: Seq<char>, expected: Seq<char>, actual: Seq<char> },
    Io(Seq<char>, Seq<char>),
    Json(Seq<char>, Seq<char>),
}

impl View for ProfileError {
    type V = ProfileErrorView;

    open spec fn view(&self) -> ProfileErrorView {
        match self {
            ProfileError::NoMatch { file } => ProfileErrorView::NoMatch { file: file@ },
            ProfileError::AmbiguousMatch { file, names } => ProfileErrorView::AmbiguousMatch {
                file: file@,
                names: names@.map_values(|s: String| s@),
            },
            ProfileError::SignatureDrift { profile, expected, actual } =>
                ProfileErrorView::SignatureDrift {
                profile: profile@,
                expected: expected@,
                actual: actual@,
            },
            ProfileError::Io(a, b) => ProfileErrorView::Io(a@, b@),
            ProfileError::Json(a, b) => ProfileErrorView::Json(a@, b@),
        }
    }
}

} // verus!
