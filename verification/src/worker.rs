//! Per-file worker decisions and the batch driver.
//!
//! A worker reads one file's original timestamp, transforms it, writes the
//! result back, and reports exactly one outcome. The reading and writing are
//! outside work; what stands here is every decision between them: which
//! outcome follows from the read result, and which from the write result.

use vstd::prelude::*;
use vstd::string::*;

use crate::cli::all_digits;
use crate::transform::build_new_datetime;
use crate::transform::colon_chars;
use crate::transform::has_no;
use crate::transform::is_digit;
use crate::transform::lemma_transform_idempotent;
use crate::transform::opt_str_view;
use crate::transform::space_chars;
use crate::transform::transform_spec;

verus! {

/// The requested change: a two-digit day, a two-digit month, and an optional
/// four-digit year. Built once and shared, read-only, by every worker of a
/// batch.
pub struct DateEdit {
    pub month: String,
    pub day: String,
    pub year: Option<String>,
}

/// The mathematical value of a `DateEdit`.
pub struct DateEditView {
    pub month: Seq<char>,
    pub day: Seq<char>,
    pub year: Option<Seq<char>>,
}

impl DateEditView {
    /// A well-formed edit, as the command line produces one: two digit
    /// characters for month and day, four for the year where one is present.
    pub open spec fn wf(self) -> bool {
        &&& self.month.len() == 2 && all_digits(self.month)
        &&& self.day.len() == 2 && all_digits(self.day)
        &&& match self.year {
            Some(y) => y.len() == 4 && all_digits(y),
            None => true,
        }
    }
}

/// A digit text holds neither a space nor a colon.
proof fn lemma_digits_have_no_separators(s: Seq<char>)
    requires
        all_digits(s),
    ensures
        has_no(s, space_chars()),
        has_no(s, colon_chars()),
{
    assert forall|i: int| 0 <= i < s.len() implies !space_chars().contains(s[i])
        && !colon_chars().contains(s[i]) by {
        assert(is_digit(s[i]));
    }
}

/// Law: with a well-formed edit, the transformation is idempotent outright —
/// whatever it produced, producing again from its own output changes nothing.
pub proof fn lemma_wf_edit_idempotent(s: Seq<char>, edit: DateEditView, t: Seq<char>)
    requires
        edit.wf(),
        transform_spec(s, edit.year, edit.month, edit.day) == Some(t),
    ensures
        transform_spec(t, edit.year, edit.month, edit.day) == Some(t),
{
    lemma_digits_have_no_separators(edit.month);
    lemma_digits_have_no_separators(edit.day);
    match edit.year {
        Some(y) => lemma_digits_have_no_separators(y),
        None => (),
    }
    lemma_transform_idempotent(s, edit.year, edit.month, edit.day, t);
}

impl View for DateEdit {
    type V = DateEditView;

    open spec fn view(&self) -> DateEditView {
        DateEditView {
            month: self.month@,
            day: self.day@,
            year: match self.year {
                Some(y) => Some(y@),
                None => None,
            },
        }
    }
}

/// The terminal result reported for one file.
#[derive(Debug, Clone, PartialEq, Eq)]
pub enum Outcome {
    Success { file: String, new_dt: String },
    SkippedUnreadable { file: String },
    SkippedMalformed { file: String },
    WriteFailed { file: String, cause: String },
}

/// The mathematical value of an `Outcome`.
pub enum OutcomeView {
    Success { file: Seq<char>, new_dt: Seq<char> },
    SkippedUnreadable { file: Seq<char> },
    SkippedMalformed { file: Seq<char> },
    WriteFailed { file: Seq<char>, cause: Seq<char> },
}

impl View for Outcome {
    type V = OutcomeView;

    open spec fn view(&self) -> OutcomeView {
        match self {
            Outcome::Success { file, new_dt } => OutcomeView::Success {
                file: file@,
                new_dt: new_dt@,
            },
            Outcome::SkippedUnreadable { file } => OutcomeView::SkippedUnreadable { file: file@ },
            Outcome::SkippedMalformed { file } => OutcomeView::SkippedMalformed { file: file@ },
            Outcome::WriteFailed { file, cause } => OutcomeView::WriteFailed {
                file: file@,
                cause: cause@,
            },
        }
    }
}

/// What a worker does once the read result is in: either it is finished, or
/// it owes the gateway one write of the new timestamp.
pub enum WorkerStep {
    Done(Outcome),
    NeedsWrite { file: String, new_dt: String },
}

/// The mathematical value of a `WorkerStep`.
pub enum StepView {
    Done(OutcomeView),
    NeedsWrite { file: Seq<char>, new_dt: Seq<char> },
}

impl View for WorkerStep {
    type V = StepView;

    open spec fn view(&self) -> StepView {
        match self {
            WorkerStep::Done(o) => StepView::Done(o@),
            WorkerStep::NeedsWrite { file, new_dt } => StepView::NeedsWrite {
                file: file@,
                new_dt: new_dt@,
            },
        }
    }
}

/// The value of an optional owned string.
pub open spec fn read_view(r: Option<String>) -> Option<Seq<char>> {
    match r {
        Some(s) => Some(s@),
        None => None,
    }
}

/// The value of a write result whose error is its diagnostic text.
pub open spec fn write_view(w: Result<(), String>) -> Result<(), Seq<char>> {
    match w {
        Ok(u) => Ok(u),
        Err(c) => Err(c@),
    }
}

/// The decision owed to a read result: a failed or empty read skips the file
/// as unreadable; an original that the transformer rejects skips it as
/// malformed; otherwise the worker owes a write of exactly the transformed
/// timestamp.
pub open spec fn after_read_spec(
    file: Seq<char>,
    read: Option<Seq<char>>,
    edit: DateEditView,
) -> StepView {
    match read {
        None => StepView::Done(OutcomeView::SkippedUnreadable { file }),
        Some(orig) => match transform_spec(orig, edit.year, edit.month, edit.day) {
            None => StepView::Done(OutcomeView::SkippedMalformed { file }),
            Some(new_dt) => StepView::NeedsWrite { file, new_dt },
        },
    }
}

/// The decision owed to a write result: success reports the new timestamp, a
/// failure reports its cause.
pub open spec fn after_write_spec(
    file: Seq<char>,
    new_dt: Seq<char>,
    write: Result<(), Seq<char>>,
) -> OutcomeView {
    match write {
        Ok(_) => OutcomeView::Success { file, new_dt },
        Err(cause) => OutcomeView::WriteFailed { file, cause },
    }
}

/// One whole worker: the outcome owed to a file given what the gateway's read
/// returned and what its write would return. The write result is consulted
/// only on the paths that reach a write.
pub open spec fn worker_outcome_spec(
    file: Seq<char>,
    read: Option<Seq<char>>,
    write: Result<(), Seq<char>>,
    edit: DateEditView,
) -> OutcomeView {
    match after_read_spec(file, read, edit) {
        StepView::Done(o) => o,
        StepView::NeedsWrite { file: f, new_dt } => after_write_spec(f, new_dt, write),
    }
}

/// Decide from the gateway's read result whether the file is skipped or what
/// must be written back.
pub fn decide_after_read(file: String, read: Option<String>, edit: &DateEdit) -> (r: WorkerStep)
    ensures
        r@ == after_read_spec(file@, read_view(read), edit@),
{
    match read {
        None => WorkerStep::Done(Outcome::SkippedUnreadable { file }),
        Some(orig) => {
            let year_arg: Option<&str> = match &edit.year {
                Some(y) => Some(y.as_str()),
                None => None,
            };
            proof {
                assert(opt_str_view(year_arg) == edit@.year);
            }
            match build_new_datetime(orig.as_str(), year_arg, edit.month.as_str(), edit.day.as_str()) {
                None => WorkerStep::Done(Outcome::SkippedMalformed { file }),
                Some(new_dt) => WorkerStep::NeedsWrite { file, new_dt },
            }
        },
    }
}

/// Decide the outcome from the gateway's write result.
pub fn decide_after_write(file: String, new_dt: String, write: Result<(), String>) -> (o: Outcome)
    ensures
        o@ == after_write_spec(file@, new_dt@, write_view(write)),
{
    match write {
        Ok(_) => Outcome::Success { file, new_dt },
        Err(cause) => Outcome::WriteFailed { file, cause },
    }
}

/// One whole worker over already-performed gateway calls: the outcome owed to
/// a file given its read result and the result its write would have.
pub fn worker_outcome(
    file: String,
    read: Option<String>,
    write: Result<(), String>,
    edit: &DateEdit,
) -> (o: Outcome)
    ensures
        o@ == worker_outcome_spec(file@, read_view(read), write_view(write), edit@),
{
    match decide_after_read(file, read, edit) {
        WorkerStep::Done(o) => o,
        WorkerStep::NeedsWrite { file: f, new_dt } => decide_after_write(f, new_dt, write),
    }
}

/// The batch driver over already-performed gateway calls: one outcome per
/// input file, each decided independently of every other file. The caller
/// supplies, file by file, what the gateway's read returned and what its
/// write returned (or would have returned had one been owed).
pub fn run_batch(
    files: Vec<String>,
    reads: Vec<Option<String>>,
    writes: Vec<Result<(), String>>,
    edit: &DateEdit,
) -> (out: Vec<Outcome>)
    requires
        reads@.len() == files@.len(),
        writes@.len() == files@.len(),
    ensures
        out@.len() == files@.len(),
        forall|i: int| 0 <= i < out@.len() ==> (#[trigger] out@[i])@ == worker_outcome_spec(
            files@[i]@,
            read_view(reads@[i]),
            write_view(writes@[i]),
            edit@,
        ),
{
    let ghost all_files = files@;
    let ghost all_reads = reads@;
    let ghost all_writes = writes@;
    let mut files = files;
    let mut reads = reads;
    let mut writes = writes;
    let mut out: Vec<Outcome> = Vec::new();
    let n = files.len();
    let mut k: usize = 0;
    while k < n
        invariant
            k <= n,
            n == all_files.len(),
            all_reads.len() == n,
            all_writes.len() == n,
            files@ =~= all_files.skip(k as int),
            reads@ =~= all_reads.skip(k as int),
            writes@ =~= all_writes.skip(k as int),
            out@.len() == k,
            forall|i: int| 0 <= i < k ==> (#[trigger] out@[i])@ == worker_outcome_spec(
                all_files[i]@,
                read_view(all_reads[i]),
                write_view(all_writes[i]),
                edit@,
            ),
        decreases n - k,
    {
        let file = files.remove(0);
        let read = reads.remove(0);
        let write = writes.remove(0);
        proof {
            assert(all_files.skip(k as int).remove(0) =~= all_files.skip(k as int + 1));
            assert(all_reads.skip(k as int).remove(0) =~= all_reads.skip(k as int + 1));
            assert(all_writes.skip(k as int).remove(0) =~= all_writes.skip(k as int + 1));
            assert(file == all_files[k as int]);
            assert(read == all_reads[k as int]);
            assert(write == all_writes[k as int]);
        }
        let o = worker_outcome(file, read, write, edit);
        out.push(o);
        k += 1;
    }
    out
}

} // verus!
