//! A run over the input directory: the tally of outcomes and what becomes of
//! each file. The I/O of a run (reading, moving, the database) is done by the
//! caller, which hands each file's outcome to `RunSummary::record`.
pub mod pipeline;
pub mod scan;

use vstd::prelude::*;
use self::pipeline::{ProcessOutcome, ProcessError, is_no_match, no_match_spec};

verus! {

/// Counts of a run.
#[derive(Debug)]
pub struct RunSummary {
    pub processed: u64,
    pub rejected_no_match: u64,
    pub failed: u64,
    pub rows_total: u64,
}

/// The counts of a run, as integers.
pub struct SummaryView {
    pub processed: int,
    pub rejected_no_match: int,
    pub failed: int,
    pub rows_total: int,
}

impl View for RunSummary {
    type V = SummaryView;

    open spec fn view(&self) -> SummaryView {
        SummaryView {
            processed: self.processed as int,
            rejected_no_match: self.rejected_no_match as int,
            failed: self.failed as int,
            rows_total: self.rows_total as int,
        }
    }
}

impl Default for RunSummary {
    fn default() -> (res: Self)
        ensures
            res.processed == 0,
            res.rejected_no_match == 0,
            res.failed == 0,
            res.rows_total == 0,
    {
        RunSummary { processed: 0, rejected_no_match: 0, failed: 0, rows_total: 0 }
    }
}

/// What becomes of a file once processed.
#[derive(Debug, Clone, Copy, PartialEq, Eq, Structural)]
pub enum FileAction {
    /// Leave it where it is (a dry run).
    Keep,
    /// Move it to the backup directory, stamped with the date.
    Backup,
    /// Move it to the error directory with a note of the error chain.
    Quarantine,
}

/// How a file's processing ended, as far as the tally is concerned.
pub enum Verdict {
    Done(nat),
    NoMatch,
    Failed,
}

pub open spec fn verdict_of(r: &Result<ProcessOutcome, ProcessError>) -> Verdict {
    match r {
        Ok(o) => Verdict::Done(o.rows as nat),
        Err(e) => if no_match_spec(e) { Verdict::NoMatch } else { Verdict::Failed },
    }
}

/// The counts after one more file, and what to do with the file: a processed
/// file adds its rows and goes to the backup directory; a file no profile
/// matched is counted as rejected, any other failure as failed, and both go
/// to the error directory. A dry run moves nothing.
pub open spec fn step(s: SummaryView, v: Verdict, dry_run: bool) -> (SummaryView, FileAction) {
    match v {
        Verdict::Done(rows) => (
            SummaryView { processed: s.processed + 1, rows_total: s.rows_total + rows, ..s },
            if dry_run { FileAction::Keep } else { FileAction::Backup },
        ),
        Verdict::NoMatch => (
            SummaryView { rejected_no_match: s.rejected_no_match + 1, ..s },
            if dry_run { FileAction::Keep } else { FileAction::Quarantine },
        ),
        Verdict::Failed => (
            SummaryView { failed: s.failed + 1, ..s },
            if dry_run { FileAction::Keep } else { FileAction::Quarantine },
        ),
    }
}

/// The files a summary has counted.
pub open spec fn files_seen(s: SummaryView) -> int {
    s.processed + s.rejected_no_match + s.failed
}

/// Whether one more file fits in the counters.
pub open spec fn room_for(s: SummaryView, v: Verdict) -> bool {
    match v {
        Verdict::Done(rows) => s.processed < u64::MAX && s.rows_total + rows <= u64::MAX,
        Verdict::NoMatch => s.rejected_no_match < u64::MAX,
        Verdict::Failed => s.failed < u64::MAX,
    }
}

impl RunSummary {
    /// Counts one file's outcome and says what to do with the file.
    pub fn record(&mut self, result: &Result<ProcessOutcome, ProcessError>, dry_run: bool) -> (action: FileAction)
        requires
            room_for(old(self)@, verdict_of(result)),
        ensures
            (final(self)@, action) == step(old(self)@, verdict_of(result), dry_run),
    {
        match result {
            Ok(out) => {
                self.processed = self.processed + 1;
                self.rows_total = self.rows_total + out.rows;
                if dry_run { FileAction::Keep } else { FileAction::Backup }
            },
            Err(e) => {
                if is_no_match(e) {
                    self.rejected_no_match = self.rejected_no_match + 1;
                } else {
                    self.failed = self.failed + 1;
                }
                if dry_run { FileAction::Keep } else { FileAction::Quarantine }
            },
        }
    }

    /// A run with a failed file ends with a failing exit status; files that
    /// no profile matched do not count as failures.
    pub fn has_failures(&self) -> (res: bool)
        ensures
            res == (self.failed > 0),
    {
        self.failed > 0
    }
}

/// Every file a run processes is counted exactly once: under processed,
/// rejected or failed.
pub proof fn law_each_file_counted_once(s: SummaryView, v: Verdict, dry_run: bool)
    ensures
        files_seen(step(s, v, dry_run).0) == files_seen(s) + 1,
{
}

/// A dry run never moves a file.
pub proof fn law_dry_run_moves_nothing(s: SummaryView, v: Verdict)
    ensures
        step(s, v, true).1 == FileAction::Keep,
{
}

/// Outside a dry run, a file is moved to the backup directory exactly when it
/// was processed, and to the error directory otherwise.
pub proof fn law_backup_iff_processed(s: SummaryView, v: Verdict)
    ensures
        (step(s, v, false).1 == FileAction::Backup) <==> (v is Done),
        (step(s, v, false).1 == FileAction::Quarantine) <==> !(v is Done),
{
}

/// Only processed files add rows to the total.
pub proof fn law_rows_only_from_processed(s: SummaryView, v: Verdict, dry_run: bool)
    ensures
        v matches Verdict::Done(n) ==> step(s, v, dry_run).0.rows_total == s.rows_total + n,
        !(v is Done) ==> step(s, v, dry_run).0.rows_total == s.rows_total,
{
}

/// The counts before any file.
pub open spec fn empty_summary() -> SummaryView {
    SummaryView { processed: 0, rejected_no_match: 0, failed: 0, rows_total: 0 }
}

/// The counts after a run over files with these outcomes, in order.
pub open spec fn tally(vs: Seq<Verdict>, dry_run: bool) -> SummaryView
    decreases vs.len(),
{
    if vs.len() == 0 {
        empty_summary()
    } else {
        step(tally(vs.drop_last(), dry_run), vs.last(), dry_run).0
    }
}

/// What becomes of file `i` of a run.
pub open spec fn action_at(vs: Seq<Verdict>, i: int, dry_run: bool) -> FileAction {
    step(tally(vs.take(i), dry_run), vs[i], dry_run).1
}

/// The number of processed files, and the rows they gave.
pub open spec fn done_count(vs: Seq<Verdict>) -> int
    decreases vs.len(),
{
    if vs.len() == 0 { 0 } else { done_count(vs.drop_last()) + if vs.last() is Done { 1int } else { 0int } }
}

pub open spec fn rows_sum(vs: Seq<Verdict>) -> int
    decreases vs.len(),
{
    if vs.len() == 0 {
        0
    } else {
        rows_sum(vs.drop_last()) + match vs.last() {
            Verdict::Done(n) => n as int,
            _ => 0int,
        }
    }
}

/// The number of files no profile matched.
pub open spec fn no_match_count(vs: Seq<Verdict>) -> int
    decreases vs.len(),
{
    if vs.len() == 0 { 0 } else { no_match_count(vs.drop_last()) + if vs.last() is NoMatch { 1int } else { 0int } }
}

/// The number of files that failed otherwise.
pub open spec fn failed_count(vs: Seq<Verdict>) -> int
    decreases vs.len(),
{
    if vs.len() == 0 { 0 } else { failed_count(vs.drop_last()) + if vs.last() is Failed { 1int } else { 0int } }
}

/// Over a whole run, the counts add up: every file is processed, rejected
/// for no match or failed; the rejected and failed counts are those files;
/// the row total is the sum of the rows of the processed files. A dry run
/// moves no file; otherwise each processed file goes to the backup directory
/// and each other file to the error directory.
pub proof fn law_run_tally(vs: Seq<Verdict>, dry_run: bool)
    ensures
        files_seen(tally(vs, dry_run)) == vs.len(),
        tally(vs, dry_run).processed == done_count(vs),
        tally(vs, dry_run).rejected_no_match == no_match_count(vs),
        tally(vs, dry_run).failed == failed_count(vs),
        tally(vs, dry_run).rows_total == rows_sum(vs),
        forall|i: int| 0 <= i < vs.len() ==> {
            &&& (dry_run ==> action_at(vs, i, dry_run) == FileAction::Keep)
            &&& (!dry_run ==> (action_at(vs, i, dry_run) == FileAction::Backup <==> vs[i] is Done))
            &&& (!dry_run ==> (action_at(vs, i, dry_run) == FileAction::Quarantine <==> !(vs[i] is Done)))
        },
    decreases vs.len(),
{
    if vs.len() > 0 {
        law_run_tally(vs.drop_last(), dry_run);
    }
}

} // verus!
