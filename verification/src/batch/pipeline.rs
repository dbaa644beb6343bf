//! The decisions of processing one input file: decode, route, reshape, and
//! the names given to a file when it is moved away.
use vstd::prelude::*;
use crate::dao::row::DailyKwhRow;
use crate::decoder::{Decoder, DecoderKind, from_label, label_kind};
use crate::decoder::encoding::{DecodeError, utf8_result, utf8_spec, big5_spec, bom_spec};
use crate::error::{ProfileError, ReshapeError, ReshapeErrorView};
use crate::grid::{Grid, grid_view};
use crate::path::{file_name, extension_of_name, stem_of_name, file_name_chars, extension_of_name_chars, stem_of_name_chars};
use crate::profile::{Profile, Registry, MatchResult, first_row, first_row_spec, year_month_spec};
use crate::reader::{Format, ReadError};
use crate::reader::csv::{CsvReader, csv_records};
use crate::reshape::header::max_width;
use crate::profile::ValueRules;
use crate::reshape::{apply_spec, rows_view, widest, apply};
use crate::dao::row::RowView;
use crate::text::{chars_of, string_of, push_str_chars, push_all, nat_text, push_decimal, views};

verus! {

/// What processing a file gave: the rows written (or, in a dry run, the rows
/// that would be), the profile used, the year-month, and whether the header
/// signature differed from the profile's.
#[derive(Debug)]
pub struct ProcessOutcome {
    pub rows: u64,
    pub profile_name: String,
    pub year_month: String,
    pub signature_drift: bool,
}

/// Why a file could not be processed.
#[derive(Debug)]
pub enum ProcessError {
    /// The file could not be read (the system's message).
    Io(String),
    /// The file's extension names no supported format.
    Unsupported(String),
    /// The bytes are not text in the expected encoding.
    Decode(DecodeError),
    /// The reader failed.
    Read(ReadError),
    /// No profile, or more than one, claims the file.
    Route(ProfileError),
    /// The year-month or the grid does not fit the profile.
    Reshape(ReshapeError),
    /// The database refused the rows (its message).
    Dao(String),
}

/// A file that no profile matched is rejected, not failed.
pub open spec fn no_match_spec(err: &ProcessError) -> bool {
    err matches ProcessError::Route(ProfileError::NoMatch { .. })
}

/// Tells a routing miss from other failures.
pub fn is_no_match(err: &ProcessError) -> (res: bool)
    ensures
        res == no_match_spec(err),
{
    match err {
        ProcessError::Route(ProfileError::NoMatch { .. }) => true,
        _ => false,
    }
}

/// The text of a decoder's result, as the decoder contracts state it.
pub open spec fn decode_spec(kind: DecoderKind, bytes: Seq<u8>) -> Result<Seq<char>, DecodeError> {
    match kind {
        DecoderKind::Utf8 => utf8_spec(bytes),
        DecoderKind::Big5 => big5_spec(bytes),
        DecoderKind::Bom => bom_spec(bytes),
    }
}

/// Decodes the bytes with the decoder an encoding label selects when the
/// format is text (CSV); an XLSX file needs no text.
pub fn text_for(format: Format, label: &str, bytes: &[u8]) -> (res: Result<Option<String>, DecodeError>)
    ensures
        format == Format::Xlsx ==> res matches Ok(None),
        format == Format::Csv ==> match decode_spec(label_kind(label@), bytes@) {
            Ok(t) => res matches Ok(Some(x)) && x@ == t,
            Err(e) => res matches Err(x) && x == e,
        },
{
    if format.needs_text_decode() {
        let decoder = from_label(label);
        match decoder.decode(bytes) {
            Ok(t) => Ok(Some(t)),
            Err(e) => Err(e),
        }
    } else {
        Ok(None)
    }
}

/// Routes a file by its name and the first row of the grid read for the peek.
pub fn route_file<'a>(registry: &'a Registry, filename: &str, peek: &Grid) -> (res: Result<MatchResult<'a>, ProfileError>)
    ensures
        ({
            let h = first_row_spec(grid_view(*peek));
            let ps = registry.entries();
            let f = filename@;
            &&& (res matches Ok(m) ==> exists|i: int| {
                &&& crate::profile::sole_best(ps, i, f, h)
                &&& *m.profile == ps[i].profile
                &&& m.path@ == ps[i].path@
                &&& m.signature_ok == crate::profile::signature_ok_spec(&ps[i].profile, h)
                &&& m.actual_signature@ == crate::profile::signature::signature_spec(h)
            })
            &&& (res matches Err(e) ==> {
                ||| ((forall|i: int| !crate::profile::is_hit(ps, i, f, h)) && e@ == crate::error::ProfileErrorView::NoMatch { file: f })
                ||| ((exists|i: int| crate::profile::is_hit(ps, i, f, h)) && (forall|i: int| !crate::profile::sole_best(ps, i, f, h))
                    && exists|order: Seq<int>| crate::profile::priority_order(ps, f, h, order)
                        && e@ == crate::error::ProfileErrorView::AmbiguousMatch {
                        file: f,
                        names: order.map_values(|i: int| ps[i].profile.name@),
                    })
            })
            &&& ((exists|i: int| crate::profile::sole_best(ps, i, f, h)) ==> res is Ok)
        }),
{
    let header = first_row(peek);
    let hs = header.as_slice();
    proof {
        assert(views(hs@) == views(header@));
    }
    registry.route(filename, hs)
}

/// The year-month of a file and the rows of its grid, as a profile reads
/// them.
pub open spec fn reshape_spec(profile: &Profile, path: Seq<char>, g: Seq<Seq<Seq<char>>>) -> Result<(Seq<char>, Seq<RowView>), ReshapeErrorView> {
    match year_month_spec(profile.unpivot.year_month_from@, path) {
        Err(e) => Err(e),
        Ok(ym) => match apply_spec(g, profile, ym) {
            Err(e) => Err(e),
            Ok(rows) => Ok((ym, rows)),
        },
    }
}

/// Reads the year-month from the file's path, then reshapes the grid.
pub fn reshape_file(profile: &Profile, path: &str, grid: &Grid) -> (res: Result<(String, Vec<DailyKwhRow>), ReshapeError>)
    requires
        profile.value_rules.wf(),
        widest(grid_view(*grid)) + profile.unpivot.day_cols <= usize::MAX,
    ensures
        match res {
            Ok((ym, rows)) => reshape_spec(profile, path@, grid_view(*grid)) == Ok::<(Seq<char>, Seq<RowView>), ReshapeErrorView>((ym@, rows_view(rows@))),
            Err(e) => reshape_spec(profile, path@, grid_view(*grid)) == Err::<(Seq<char>, Seq<RowView>), ReshapeErrorView>(e@),
        },
{
    let ym = match profile.extract_year_month(path) {
        Ok(y) => y,
        Err(e) => return Err(e),
    };
    match apply(grid, profile, ym.as_str()) {
        Ok(rows) => Ok((ym, rows)),
        Err(e) => Err(e),
    }
}

/// What processing a file gives once its rows are made: the rows the
/// database reports written, or in a dry run (nothing written) the rows made;
/// drift when the header signature was not the profile's.
pub fn outcome_of(profile_name: String, year_month: String, rows_made: usize, signature_ok: bool, written: Option<u64>) -> (res: ProcessOutcome)
    ensures
        res.rows == match written {
            Some(n) => n,
            None => rows_made as u64,
        },
        res.profile_name == profile_name,
        res.year_month == year_month,
        res.signature_drift == !signature_ok,
{
    let rows = match written {
        Some(n) => n,
        None => rows_made as u64,
    };
    ProcessOutcome { rows, profile_name, year_month, signature_drift: !signature_ok }
}

/// The widest row of a grid.
pub fn widest_row(grid: &Grid) -> (res: usize)
    ensures
        res == widest(grid_view(*grid)),
{
    let ghost g = grid_view(*grid);
    let mut w: usize = 0;
    let mut i: usize = 0;
    while i < grid.len()
        invariant
            i <= grid@.len(),
            g == grid_view(*grid),
            w == max_width(g, i as int),
        decreases grid.len() - i,
    {
        if grid[i].len() > w {
            w = grid[i].len();
        }
        proof {
            assert(g[i as int].len() == grid@[i as int]@.len());
        }
        i = i + 1;
    }
    w
}

/// Whether the bounds of value rules are numbers a decimal holds.
pub fn rules_hold_decimals(rules: &ValueRules) -> (res: bool)
    ensures
        res == rules.wf(),
{
    let min_ok = match &rules.min {
        Some(m) => m.magnitude <= 0xffff_ffff_ffff_ffff_ffff_ffffu128 && m.scale <= 28,
        None => true,
    };
    let max_ok = match &rules.max {
        Some(m) => m.magnitude <= 0xffff_ffff_ffff_ffff_ffff_ffffu128 && m.scale <= 28,
        None => true,
    };
    min_ok && max_ok
}

/// The stage at which processing a text file stopped.
pub enum TextStage {
    Decode,
    Read,
    Route,
    Reshape,
}

/// How processing a text file ends: the stage that failed, or the index of
/// the profile it was routed to, the year-month, the rows and whether the
/// header signature was the profile's.
pub enum TextResult {
    Failed(TextStage),
    Made(int, Seq<char>, Seq<RowView>, bool),
}

/// The profile a header routes to, when one is the single best.
pub open spec fn routed(ps: Seq<crate::profile::LoadedProfile>, f: Seq<char>, h: Seq<Seq<char>>) -> int {
    choose|i: int| crate::profile::sole_best(ps, i, f, h)
}

/// Processing a CSV file: decode its bytes (sniffing a BOM) and read the grid
/// whose first row routes the file; decode again with the routed profile's
/// encoding, read the grid, then read the year-month and reshape (bounds that
/// a decimal cannot hold, or rows too wide to index, stop the reshape).
pub open spec fn text_file_spec(ps: Seq<crate::profile::LoadedProfile>, path: Seq<char>, f: Seq<char>, bytes: Seq<u8>) -> TextResult {
    match decode_spec(DecoderKind::Bom, bytes) {
        Err(_) => TextResult::Failed(TextStage::Decode),
        Ok(t) => match csv_records(t) {
            Err(_) => TextResult::Failed(TextStage::Read),
            Ok(g0) => {
                let h = first_row_spec(g0);
                if !(exists|i: int| crate::profile::sole_best(ps, i, f, h)) {
                    TextResult::Failed(TextStage::Route)
                } else {
                    let i = routed(ps, f, h);
                    let p = ps[i].profile;
                    match decode_spec(label_kind(p.encoding@), bytes) {
                        Err(_) => TextResult::Failed(TextStage::Decode),
                        Ok(t2) => match csv_records(t2) {
                            Err(_) => TextResult::Failed(TextStage::Read),
                            Ok(g) => if !(p.value_rules.wf() && widest(g) + p.unpivot.day_cols <= usize::MAX) {
                                TextResult::Failed(TextStage::Reshape)
                            } else {
                                match reshape_spec(&p, path, g) {
                                    Err(_) => TextResult::Failed(TextStage::Reshape),
                                    Ok((ym, rows)) => TextResult::Made(i, ym, rows, crate::profile::signature_ok_spec(&p, h)),
                                }
                            },
                        },
                    }
                }
            },
        },
    }
}

/// What processing a text file decides before anything is written.
pub enum TextStep<'a> {
    /// A dry run: nothing is to be written; the outcome counts the rows made.
    Done { outcome: ProcessOutcome, rows: Vec<DailyKwhRow> },
    /// The rows to write for the year-month; the outcome follows from what the
    /// write reports (`outcome_of`).
    Write { profile: &'a Profile, year_month: String, rows: Vec<DailyKwhRow>, signature_ok: bool },
}

proof fn lemma_auto_is_bom()
    ensures
        label_kind("auto"@) == DecoderKind::Bom,
{
    reveal_strlit("auto");
    reveal_strlit("big5");
    reveal_strlit("bom");
    assert(crate::decoder::lower_label("auto"@) =~= "auto"@);
    assert("auto"@ != "big5"@) by {
        assert("auto"@[0] != "big5"@[0]);
    }
}

proof fn lemma_sole_best_unique(ps: Seq<crate::profile::LoadedProfile>, f: Seq<char>, h: Seq<Seq<char>>, i: int, j: int)
    requires
        crate::profile::sole_best(ps, i, f, h),
        crate::profile::sole_best(ps, j, f, h),
    ensures
        i == j,
{
    if i != j {
        assert(crate::profile::is_hit(ps, j, f, h));
        assert(crate::profile::is_hit(ps, i, f, h));
    }
}

/// Processes a CSV file up to the write: decode, read, route, decode with the
/// profile's encoding, read, reshape. A dry run ends there with its outcome;
/// otherwise the rows are handed back to be written. A dry run never asks
/// for a write.
pub fn process_text_file<'a>(registry: &'a Registry, path: &str, filename: &str, bytes: &[u8], dry_run: bool) -> (res: Result<TextStep<'a>, ProcessError>)
    ensures
        ({
            let ps = registry.entries();
            let spec = text_file_spec(ps, path@, filename@, bytes@);
            match res {
                Ok(TextStep::Done { outcome: o, rows: made }) => dry_run && (spec matches TextResult::Made(i, ym, rows, sok) && {
                    &&& rows_view(made@) == rows
                    &&& o.rows == rows.len()
                    &&& o.profile_name@ == ps[i].profile.name@
                    &&& o.year_month@ == ym
                    &&& o.signature_drift == !sok
                }),
                Ok(TextStep::Write { profile, year_month, rows, signature_ok }) => !dry_run && (spec matches TextResult::Made(i, ym, rv, sok) && {
                    &&& *profile == ps[i].profile
                    &&& year_month@ == ym
                    &&& rows_view(rows@) == rv
                    &&& signature_ok == sok
                }),
                Err(e) => match spec {
                    TextResult::Failed(TextStage::Decode) => e is Decode,
                    TextResult::Failed(TextStage::Read) => e is Read,
                    TextResult::Failed(TextStage::Route) => e is Route,
                    TextResult::Failed(TextStage::Reshape) => e is Reshape,
                    TextResult::Made(..) => false,
                },
            }
        }),
{
    let ghost ps = registry.entries();
    let peek_text = match text_for(Format::Csv, "auto", bytes) {
        Ok(t) => t,
        Err(e) => {
            proof {
                lemma_auto_is_bom();
            }
            return Err(ProcessError::Decode(e));
        },
    };
    proof {
        lemma_auto_is_bom();
    }
    let peek = match CsvReader.read_text(match &peek_text { Some(t) => Some(t.as_str()), None => None }) {
        Ok(g) => g,
        Err(e) => return Err(ProcessError::Read(e)),
    };
    let m = match route_file(registry, filename, &peek) {
        Ok(m) => m,
        Err(e) => return Err(ProcessError::Route(e)),
    };
    let ghost h = first_row_spec(grid_view(peek));
    proof {
        let j = choose|j: int| crate::profile::sole_best(ps, j, filename@, h) && *m.profile == ps[j].profile
            && m.signature_ok == crate::profile::signature_ok_spec(&ps[j].profile, h);
        lemma_sole_best_unique(ps, filename@, h, j, routed(ps, filename@, h));
    }
    let profile: &'a Profile = m.profile;
    let text = match text_for(Format::Csv, profile.encoding.as_str(), bytes) {
        Ok(t) => t,
        Err(e) => return Err(ProcessError::Decode(e)),
    };
    let grid = match CsvReader.read_text(match &text { Some(t) => Some(t.as_str()), None => None }) {
        Ok(g) => g,
        Err(e) => return Err(ProcessError::Read(e)),
    };
    let w = widest_row(&grid);
    if !rules_hold_decimals(&profile.value_rules) || w > usize::MAX - profile.unpivot.day_cols {
        proof {
            reveal_strlit("value bounds or column count out of range");
        }
        return Err(ProcessError::Reshape(ReshapeError::BadProfile("value bounds or column count out of range".to_owned())));
    }
    let (year_month, rows) = match reshape_file(profile, path, &grid) {
        Ok(r) => r,
        Err(e) => return Err(ProcessError::Reshape(e)),
    };
    if dry_run {
        let name = profile.name.clone();
        let outcome = outcome_of(name, year_month, rows.len(), m.signature_ok, None);
        Ok(TextStep::Done { outcome, rows })
    } else {
        Ok(TextStep::Write { profile, year_month, rows, signature_ok: m.signature_ok })
    }
}

/// The name a processed file gets in the backup directory: its stem, `_`,
/// the date, then its extension (if it has one).
pub open spec fn backup_name_spec(path: Seq<char>, date: Seq<char>) -> Option<Seq<char>> {
    match file_name(path) {
        None => None,
        Some(f) => match extension_of_name(f) {
            Some(e) => if e.len() > 0 {
                Some(stem_of_name(f) + "_"@ + date + "."@ + e)
            } else {
                Some(stem_of_name(f) + "_"@ + date)
            },
            None => Some(stem_of_name(f) + "_"@ + date),
        },
    }
}

/// Names a file moved to the backup directory, stamped with `date`
/// (`YYYYMMDD`); none for a path without a file name.
pub fn backup_file_name(path: &str, date: &str) -> (res: Option<String>)
    ensures
        match backup_name_spec(path@, date@) {
            Some(n) => res matches Some(x) && x@ == n,
            None => res is None,
        },
{
    proof {
        reveal_strlit("_");
        reveal_strlit(".");
    }
    let p = chars_of(path);
    let name = match file_name_chars(&p) {
        Some(n) => n,
        None => return None,
    };
    let mut out = stem_of_name_chars(&name);
    push_str_chars(&mut out, "_");
    push_str_chars(&mut out, date);
    match extension_of_name_chars(&name) {
        Some(e) => {
            if e.len() > 0 {
                push_str_chars(&mut out, ".");
                push_all(&mut out, &e);
            }
        },
        None => {},
    }
    Some(string_of(out.as_slice()))
}

/// The name of the note written beside a file moved to the error directory:
/// the file's name followed by `.err.txt` (`<file>.err.txt`).
pub open spec fn error_note_spec(path: Seq<char>) -> Option<Seq<char>> {
    match file_name(path) {
        None => None,
        Some(f) => Some(f + ".err.txt"@),
    }
}

/// Names the note that records why a file failed; none for a path without a
/// file name.
pub fn error_note_name(path: &str) -> (res: Option<String>)
    ensures
        match error_note_spec(path@) {
            Some(n) => res matches Some(x) && x@ == n,
            None => res is None,
        },
{
    proof {
        reveal_strlit(".err.txt");
    }
    let p = chars_of(path);
    let mut out = match file_name_chars(&p) {
        Some(n) => n,
        None => return None,
    };
    push_str_chars(&mut out, ".err.txt");
    Some(string_of(out.as_slice()))
}

/// Line `k` of an error chain: the error itself, then each cause with its
/// depth.
pub open spec fn chain_line(messages: Seq<Seq<char>>, k: int) -> Seq<char> {
    if k == 0 {
        messages[0] + "\n"@
    } else {
        "  caused by ["@ + nat_text(k as nat) + "]: "@ + messages[k] + "\n"@
    }
}

/// The first `n` lines of an error chain.
pub open spec fn chain_text(messages: Seq<Seq<char>>, n: int) -> Seq<char>
    decreases n,
{
    if n <= 0 {
        Seq::empty()
    } else {
        chain_text(messages, n - 1) + chain_line(messages, n - 1)
    }
}

/// Renders an error and its causes (messages outermost first) as the text of
/// an error note: the error on the first line, then `  caused by [k]: ...`
/// for the k-th cause.
pub fn render_error_chain(messages: &[String]) -> (res: String)
    ensures
        res@ == chain_text(views(messages@), messages@.len() as int),
{
    proof {
        reveal_strlit("\n");
        reveal_strlit("  caused by [");
        reveal_strlit("]: ");
    }
    let ghost m = views(messages@);
    let mut out: Vec<char> = Vec::new();
    let mut k: usize = 0;
    while k < messages.len()
        invariant
            k <= messages@.len(),
            m == views(messages@),
            out@ == chain_text(m, k as int),
        decreases messages.len() - k,
    {
        let ghost before = out@;
        if k == 0 {
            push_str_chars(&mut out, messages[0].as_str());
            push_str_chars(&mut out, "\n");
            proof {
                assert(out@ =~= before + chain_line(m, 0));
            }
        } else {
            push_str_chars(&mut out, "  caused by [");
            let ghost a = out@;
            push_decimal(&mut out, k as u64);
            let ghost b = out@;
            push_str_chars(&mut out, "]: ");
            push_str_chars(&mut out, messages[k].as_str());
            push_str_chars(&mut out, "\n");
            proof {
                assert(b == a + nat_text(k as nat));
                assert(out@ =~= before + chain_line(m, k as int));
            }
        }
        k = k + 1;
    }
    string_of(out.as_slice())
}

} // verus!
