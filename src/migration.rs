//! The migration state machine: phases, row counters, batch commits,
//! progress and cancellation.

use vstd::prelude::*;
use crate::cancel::CancellationToken;

verus! {

/// The phases of a migration, in the order they are entered.
#[derive(Clone, Copy, Debug, PartialEq, Eq, Structural)]
pub enum MigrationStatus {
    Validating,
    CountingRows,
    Connecting,
    CreatingTable,
    StartingWrite,
    Processing,
    Cancelled,
    Complete,
    Failed,
}

/// Which store the rows go to.
#[derive(Clone, Copy, Debug, PartialEq, Eq, Structural)]
pub enum TargetKind {
    /// The embedded engine: batched inserts, one transaction per batch.
    Embedded,
    /// The client/server engine: one bulk-load stream.
    BulkCopy,
}

/// How the next row came out of the row source.
#[derive(Clone, Copy, Debug, PartialEq, Eq, Structural)]
pub enum RowRead {
    /// Parsed and, where the writer checks values, valid.
    Parsed,
    /// The row could not be parsed.
    Malformed,
    /// Parsed, but a value does not fit its column's type.
    Rejected,
}

/// What the driver does with the row just handed in.
#[derive(Clone, Copy, Debug, PartialEq, Eq, Structural)]
pub enum RowAction {
    /// Stop: roll back the open transaction, or close the bulk-load stream,
    /// then report the cancellation.
    Cancel,
    /// Stop: unwind, and report the error of this row, counted from one.
    Fail { row: usize },
    /// Leave the row out; emit progress where `emit` is set.
    Skip { emit: bool },
    /// Write the row; then commit the batch where `commit` is set, then emit
    /// progress where `emit` is set.
    Write { commit: bool, emit: bool },
}

/// The progress that a migration reports.
#[derive(Debug)]
pub struct ProgressEvent {
    pub total_rows: usize,
    pub processed_rows: usize,
    pub row_count: usize,
    pub batch_size: usize,
    pub status: String,
    pub message: Option<String>,
}

/// The result set of a query, every value as text.
#[derive(Debug)]
pub struct QueryResult {
    pub columns: Vec<String>,
    pub rows: Vec<Vec<String>>,
}

/// The counters and phase of one migration. Rows are handed in strictly in
/// file order; `written_rows` went to the writer, and `committed_rows` of
/// them are durable in the target.
#[derive(Clone, Copy, Debug, PartialEq, Eq, Structural)]
pub struct Migration {
    pub target: TargetKind,
    pub batch_size: usize,
    pub progress_every: usize,
    pub status: MigrationStatus,
    pub total_rows: usize,
    pub processed_rows: usize,
    pub written_rows: usize,
    pub committed_rows: usize,
}

pub open spec fn status_text(s: MigrationStatus) -> Seq<char> {
    match s {
        MigrationStatus::Validating => "validating"@,
        MigrationStatus::CountingRows => "counting_rows"@,
        MigrationStatus::Connecting => "connecting"@,
        MigrationStatus::CreatingTable => "creating_table"@,
        MigrationStatus::StartingWrite => "starting_write"@,
        MigrationStatus::Processing => "processing"@,
        MigrationStatus::Cancelled => "cancelled"@,
        MigrationStatus::Complete => "complete"@,
        MigrationStatus::Failed => "failed"@,
    }
}

/// The event that reports state `m`; only a cancellation carries a
/// message.
pub open spec fn reports(e: ProgressEvent, m: Migration) -> bool {
    &&& e.total_rows == m.total_rows
    &&& e.processed_rows == m.processed_rows
    &&& e.row_count == m.processed_rows
    &&& e.batch_size == m.batch_size
    &&& e.status@ == status_text(m.status)
    &&& e.message is Some <==> m.status == MigrationStatus::Cancelled
    &&& e.message is Some ==> e.message->0@ == "Migration cancelled by user"@
}

/// The phase after a set-up phase.
pub open spec fn next_phase(s: MigrationStatus) -> MigrationStatus {
    match s {
        MigrationStatus::Validating => MigrationStatus::CountingRows,
        MigrationStatus::CountingRows => MigrationStatus::Connecting,
        MigrationStatus::Connecting => MigrationStatus::CreatingTable,
        MigrationStatus::CreatingTable => MigrationStatus::StartingWrite,
        _ => MigrationStatus::Processing,
    }
}

pub open spec fn is_setup(s: MigrationStatus) -> bool {
    s == MigrationStatus::Validating || s == MigrationStatus::CountingRows || s
        == MigrationStatus::Connecting || s == MigrationStatus::CreatingTable || s
        == MigrationStatus::StartingWrite
}

/// The rows of `written` that complete batches.
pub open spec fn whole_batches(written: nat, batch: nat) -> nat
    recommends
        batch > 0,
{
    (written - written % batch) as nat
}

/// One row handed in while processing: `cancel` is the signal as read
/// before the row.
pub open spec fn row_step(m: Migration, cancel: bool, read: RowRead) -> (Migration, RowAction) {
    if cancel {
        let committed = match m.target {
            TargetKind::Embedded => m.committed_rows,
            TargetKind::BulkCopy => m.written_rows,
        };
        (
            Migration { status: MigrationStatus::Cancelled, committed_rows: committed, ..m },
            RowAction::Cancel,
        )
    } else {
        let p = (m.processed_rows + 1) as usize;
        let emit = p % m.progress_every == 0;
        match read {
            RowRead::Malformed => (
                Migration { status: MigrationStatus::Failed, processed_rows: p, ..m },
                RowAction::Fail { row: p },
            ),
            RowRead::Rejected => match m.target {
                TargetKind::Embedded => (
                    Migration { status: MigrationStatus::Failed, processed_rows: p, ..m },
                    RowAction::Fail { row: p },
                ),
                TargetKind::BulkCopy => (
                    Migration { processed_rows: p, ..m },
                    RowAction::Skip { emit },
                ),
            },
            RowRead::Parsed => {
                let w = (m.written_rows + 1) as usize;
                let commit = m.target == TargetKind::Embedded && w % m.batch_size == 0;
                (
                    Migration {
                        processed_rows: p,
                        written_rows: w,
                        committed_rows: if commit {
                            w
                        } else {
                            m.committed_rows
                        },
                        ..m
                    },
                    RowAction::Write { commit, emit },
                )
            },
        }
    }
}

/// The state after the row source is exhausted and the writer finished.
pub open spec fn finish_spec(m: Migration) -> Migration {
    Migration { status: MigrationStatus::Complete, committed_rows: m.written_rows, ..m }
}

impl Migration {
    /// What holds of every state: the settings are positive, and committed
    /// rows were written, written rows processed; the embedded target holds
    /// exactly the whole batches while processing.
    pub open spec fn wf(&self) -> bool {
        &&& self.batch_size > 0
        &&& self.progress_every > 0
        &&& self.committed_rows <= self.written_rows <= self.processed_rows
        &&& (self.status == MigrationStatus::Processing && self.target == TargetKind::Embedded)
            ==> self.committed_rows == whole_batches(
            self.written_rows as nat,
            self.batch_size as nat,
        )
        &&& (self.status == MigrationStatus::Processing && self.target == TargetKind::BulkCopy)
            ==> self.committed_rows == 0
        &&& is_setup(self.status) ==> self.processed_rows == 0 && self.written_rows == 0
            && self.committed_rows == 0
    }

    /// A migration about to be validated. `batch_size` is how many rows
    /// each transaction of the embedded target holds; progress is reported
    /// every `progress_every` rows.
    pub fn new(target: TargetKind, batch_size: usize, progress_every: usize) -> (r: Migration)
        requires
            batch_size > 0,
            progress_every > 0,
        ensures
            r.wf(),
            r.status == MigrationStatus::Validating,
            r.target == target,
            r.batch_size == batch_size,
            r.progress_every == progress_every,
            r.total_rows == 0,
    {
        Migration {
            target,
            batch_size,
            progress_every,
            status: MigrationStatus::Validating,
            total_rows: 0,
            processed_rows: 0,
            written_rows: 0,
            committed_rows: 0,
        }
    }

    /// The event that reports the current state.
    pub fn progress_event(&self) -> (e: ProgressEvent)
        ensures
            reports(e, *self),
    {
        let status = status_name(self.status);
        let message = if self.status == MigrationStatus::Cancelled {
            Some("Migration cancelled by user".to_owned())
        } else {
            None
        };
        ProgressEvent {
            total_rows: self.total_rows,
            processed_rows: self.processed_rows,
            row_count: self.processed_rows,
            batch_size: self.batch_size,
            status,
            message,
        }
    }

    /// Enters the next set-up phase and reports it; leaving the validation
    /// phase also clears the cancellation signal.
    pub fn advance(&mut self, token: &mut CancellationToken) -> (e: ProgressEvent)
        requires
            old(self).wf(),
            is_setup(old(self).status),
        ensures
            final(self).wf(),
            *final(self) == (Migration { status: next_phase(old(self).status), ..*old(self) }),
            old(self).status == MigrationStatus::Validating ==> !final(token).requested,
            old(self).status != MigrationStatus::Validating ==> *final(token) == *old(token),
            reports(e, *final(self)),
    {
        if self.status == MigrationStatus::Validating {
            crate::cancel::reset_cancellation(token);
        }
        self.status = match self.status {
            MigrationStatus::Validating => MigrationStatus::CountingRows,
            MigrationStatus::CountingRows => MigrationStatus::Connecting,
            MigrationStatus::Connecting => MigrationStatus::CreatingTable,
            MigrationStatus::CreatingTable => MigrationStatus::StartingWrite,
            _ => MigrationStatus::Processing,
        };
        self.progress_event()
    }

    /// Records the row count from the counting pass: every line but the
    /// header.
    pub fn set_line_count(&mut self, lines: usize)
        requires
            old(self).wf(),
        ensures
            final(self).wf(),
            *final(self) == (Migration {
                total_rows: if lines > 0 {
                    (lines - 1) as usize
                } else {
                    0
                },
                ..*old(self)
            }),
    {
        self.total_rows = if lines > 0 {
            lines - 1
        } else {
            0
        };
    }

    /// Takes the next row: reads the cancellation signal first (consuming
    /// it), then counts the row and says what to do with it.
    pub fn next_row(&mut self, token: &mut CancellationToken, read: RowRead) -> (a: RowAction)
        requires
            old(self).wf(),
            old(self).status == MigrationStatus::Processing,
            old(self).processed_rows < usize::MAX,
        ensures
            final(self).wf(),
            (*final(self), a) == row_step(*old(self), old(token).requested, read),
            !final(token).requested,
    {
        proof {
            lemma_whole_batches_step(self.written_rows as nat, self.batch_size as nat);
        }
        if crate::cancel::is_cancellation_requested(token) {
            crate::cancel::reset_cancellation(token);
            if self.target == TargetKind::BulkCopy {
                self.committed_rows = self.written_rows;
            }
            self.status = MigrationStatus::Cancelled;
            return RowAction::Cancel;
        }
        self.processed_rows = self.processed_rows + 1;
        let emit = self.processed_rows % self.progress_every == 0;
        match read {
            RowRead::Malformed => {
                self.status = MigrationStatus::Failed;
                RowAction::Fail { row: self.processed_rows }
            },
            RowRead::Rejected => {
                if self.target == TargetKind::Embedded {
                    self.status = MigrationStatus::Failed;
                    RowAction::Fail { row: self.processed_rows }
                } else {
                    RowAction::Skip { emit }
                }
            },
            RowRead::Parsed => {
                self.written_rows = self.written_rows + 1;
                let commit = self.target == TargetKind::Embedded && self.written_rows
                    % self.batch_size == 0;
                if commit {
                    self.committed_rows = self.written_rows;
                }
                RowAction::Write { commit, emit }
            },
        }
    }

    /// Marks the migration complete once the writer has finished: every
    /// written row is then in the target.
    pub fn finish(&mut self) -> (e: ProgressEvent)
        requires
            old(self).wf(),
            old(self).status == MigrationStatus::Processing,
        ensures
            final(self).wf(),
            *final(self) == finish_spec(*old(self)),
            reports(e, *final(self)),
    {
        self.status = MigrationStatus::Complete;
        self.committed_rows = self.written_rows;
        self.progress_event()
    }

    /// Marks the migration failed after the writer reported an error; the
    /// rows of the open batch are rolled back, so the target keeps what was
    /// committed.
    pub fn fail(&mut self) -> (e: ProgressEvent)
        requires
            old(self).wf(),
        ensures
            final(self).wf(),
            *final(self) == (Migration { status: MigrationStatus::Failed, ..*old(self) }),
            reports(e, *final(self)),
    {
        self.status = MigrationStatus::Failed;
        self.progress_event()
    }
}

/// The name of a phase as progress events carry it.
pub fn status_name(s: MigrationStatus) -> (r: String)
    ensures
        r@ == status_text(s),
{
    match s {
        MigrationStatus::Validating => "validating".to_owned(),
        MigrationStatus::CountingRows => "counting_rows".to_owned(),
        MigrationStatus::Connecting => "connecting".to_owned(),
        MigrationStatus::CreatingTable => "creating_table".to_owned(),
        MigrationStatus::StartingWrite => "starting_write".to_owned(),
        MigrationStatus::Processing => "processing".to_owned(),
        MigrationStatus::Cancelled => "cancelled".to_owned(),
        MigrationStatus::Complete => "complete".to_owned(),
        MigrationStatus::Failed => "failed".to_owned(),
    }
}

proof fn lemma_whole_batches_step(w: nat, b: nat)
    requires
        b > 0,
    ensures
        whole_batches(w, b) <= w,
        (w + 1) % b == 0 ==> whole_batches(w + 1, b) == w + 1,
        (w + 1) % b != 0 ==> whole_batches(w + 1, b) == whole_batches(w, b),
{
    assert(whole_batches(w, b) <= w) by (nonlinear_arith)
        requires
            b > 0,
    {
        assert(w % b >= 0);
    }
    if (w + 1) % b != 0 {
        assert((w + 1) % b == w % b + 1) by (nonlinear_arith)
            requires
                b > 0,
                (w + 1) % b != 0,
        {
            vstd::arithmetic::div_mod::lemma_mod_adds(w as int, 1, b as int);
            vstd::arithmetic::div_mod::lemma_small_mod(1, b);
        }
    }
}

/// The state after the rows `inputs` are handed in one by one; each input
/// is the cancellation signal as read before the row, and how the row was
/// read. Nothing changes once processing has stopped.
pub open spec fn run(m: Migration, inputs: Seq<(bool, RowRead)>) -> Migration
    decreases inputs.len(),
{
    if inputs.len() == 0 || m.status != MigrationStatus::Processing {
        m
    } else {
        run(row_step(m, inputs[0].0, inputs[0].1).0, inputs.drop_first())
    }
}

/// `k` rows that parse, with no cancellation.
pub open spec fn parsed_rows(k: nat) -> Seq<(bool, RowRead)> {
    Seq::new(k, |i: int| (false, RowRead::Parsed))
}

/// A migration that has just entered processing.
pub open spec fn fresh(m: Migration) -> bool {
    &&& m.wf()
    &&& m.status == MigrationStatus::Processing
    &&& m.processed_rows == 0
    &&& m.written_rows == 0
    &&& m.committed_rows == 0
}

/// The state after `k` more rows were written.
pub open spec fn after_writes(m: Migration, k: nat) -> Migration {
    Migration {
        processed_rows: (m.processed_rows + k) as usize,
        written_rows: (m.written_rows + k) as usize,
        committed_rows: match m.target {
            TargetKind::Embedded => whole_batches(
                (m.written_rows + k) as nat,
                m.batch_size as nat,
            ) as usize,
            TargetKind::BulkCopy => m.committed_rows,
        },
        ..m
    }
}

proof fn lemma_parsed_prefix(m: Migration, k: nat, rest: Seq<(bool, RowRead)>)
    requires
        m.wf(),
        m.status == MigrationStatus::Processing,
        m.processed_rows + k <= usize::MAX,
    ensures
        run(m, parsed_rows(k) + rest) == run(after_writes(m, k), rest),
        after_writes(m, k).wf(),
    decreases k,
{
    lemma_whole_batches_step(m.written_rows as nat, m.batch_size as nat);
    if k == 0 {
        assert(parsed_rows(0) + rest =~= rest);
        assert(after_writes(m, 0) == m);
    } else {
        let s = parsed_rows(k) + rest;
        assert(s[0] == (false, RowRead::Parsed));
        assert(s.drop_first() =~= parsed_rows((k - 1) as nat) + rest);
        let m1 = row_step(m, false, RowRead::Parsed).0;
        assert(m1.wf());
        lemma_parsed_prefix(m1, (k - 1) as nat, rest);
        assert(after_writes(m1, (k - 1) as nat) == after_writes(m, k));
    }
}

proof fn lemma_run_bounds(m: Migration, inputs: Seq<(bool, RowRead)>)
    requires
        m.processed_rows + inputs.len() <= usize::MAX,
    ensures
        run(m, inputs).processed_rows <= m.processed_rows + inputs.len(),
        run(m, inputs).total_rows == m.total_rows,
    decreases inputs.len(),
{
    if inputs.len() > 0 && m.status == MigrationStatus::Processing {
        lemma_run_bounds(row_step(m, inputs[0].0, inputs[0].1).0, inputs.drop_first());
    }
}

/// While the row source yields no more rows than the counting pass found,
/// the processed count never passes the total; and a run over exactly that
/// many rows, none skipped and none cancelled, completes with every row
/// processed and in the target.
pub proof fn lemma_progress_within_total(m: Migration, inputs: Seq<(bool, RowRead)>)
    requires
        m.wf(),
        m.processed_rows + inputs.len() <= m.total_rows,
    ensures
        run(m, inputs).processed_rows <= run(m, inputs).total_rows,
        run(m, inputs).total_rows == m.total_rows,
        fresh(m) && inputs == parsed_rows(m.total_rows as nat) ==> {
            let f = finish_spec(run(m, inputs));
            &&& f.status == MigrationStatus::Complete
            &&& f.processed_rows == f.total_rows
            &&& f.committed_rows == f.total_rows
        },
{
    lemma_run_bounds(m, inputs);
    if fresh(m) && inputs == parsed_rows(m.total_rows as nat) {
        let n = m.total_rows as nat;
        assert(inputs =~= parsed_rows(n) + Seq::<(bool, RowRead)>::empty());
        lemma_parsed_prefix(m, n, Seq::empty());
    }
}

proof fn lemma_run_prefix(m: Migration, inputs: Seq<(bool, RowRead)>, j: int)
    requires
        0 <= j <= inputs.len(),
        m.processed_rows + inputs.len() <= usize::MAX,
    ensures
        m.processed_rows <= run(m, inputs.take(j)).processed_rows,
        run(m, inputs.take(j)).processed_rows <= run(m, inputs).processed_rows,
    decreases inputs.len(),
{
    if inputs.len() == 0 || m.status != MigrationStatus::Processing {
        assert(run(m, inputs.take(j)) == m);
    } else {
        let m1 = row_step(m, inputs[0].0, inputs[0].1).0;
        let rest = inputs.drop_first();
        lemma_run_prefix(m1, rest, 0);
        assert(rest.take(0) =~= Seq::<(bool, RowRead)>::empty());
        if j > 0 {
            let t = inputs.take(j);
            assert(t[0] == inputs[0]);
            assert(t.drop_first() =~= rest.take(j - 1));
            lemma_run_prefix(m1, rest, j - 1);
        } else {
            assert(inputs.take(0) =~= Seq::<(bool, RowRead)>::empty());
        }
    }
}

/// Progress never goes back: while the row source yields no more rows than
/// were counted, the processed count reported after the first `j` rows is at
/// most the count reported after the first `k`, `j <= k`, which is at most
/// the total; finishing keeps it.
pub proof fn lemma_progress_monotonic(m: Migration, inputs: Seq<(bool, RowRead)>, j: int, k: int)
    requires
        m.wf(),
        0 <= j <= k <= inputs.len(),
        m.processed_rows + inputs.len() <= m.total_rows,
    ensures
        m.processed_rows <= run(m, inputs.take(j)).processed_rows,
        run(m, inputs.take(j)).processed_rows <= run(m, inputs.take(k)).processed_rows,
        run(m, inputs.take(k)).processed_rows <= run(m, inputs.take(k)).total_rows,
        finish_spec(run(m, inputs.take(k))).processed_rows == run(
            m,
            inputs.take(k),
        ).processed_rows,
{
    let tk = inputs.take(k);
    assert(tk.take(j) =~= inputs.take(j));
    lemma_run_prefix(m, tk, j);
    lemma_progress_within_total(m, tk);
}

/// A cancellation read before row `k + 1` stops the run as cancelled with
/// `k` rows processed. The embedded target then holds exactly the rows of
/// the whole batches among them, never part of a batch; the bulk-load target
/// holds the `k` rows sent before its stream was closed.
pub proof fn lemma_cancel_after(
    m: Migration,
    k: nat,
    read: RowRead,
    rest: Seq<(bool, RowRead)>,
)
    requires
        fresh(m),
        k < m.total_rows,
    ensures
        ({
            let f = run(m, parsed_rows(k) + (seq![(true, read)] + rest));
            &&& f.status == MigrationStatus::Cancelled
            &&& f.processed_rows == k
            &&& f.written_rows == k
            &&& m.target == TargetKind::Embedded ==> f.committed_rows == whole_batches(
                k,
                m.batch_size as nat,
            ) && (f.committed_rows as int) % (m.batch_size as int) == 0
            &&& m.target == TargetKind::BulkCopy ==> f.committed_rows == k
        }),
{
    let tail = seq![(true, read)] + rest;
    lemma_parsed_prefix(m, k, tail);
    let m1 = after_writes(m, k);
    assert(tail[0] == (true, read));
    assert(tail.drop_first() =~= rest);
    assert(run(m1, tail) == run(row_step(m1, true, read).0, rest));
    let c = row_step(m1, true, read).0;
    assert(c.status == MigrationStatus::Cancelled);
    assert(run(c, rest) == c);
    let b = m.batch_size as int;
    assert(0 <= (k as int) % b <= k) by {
        vstd::arithmetic::div_mod::lemma_mod_pos_bound(k as int, b);
        vstd::arithmetic::div_mod::lemma_fundamental_div_mod(k as int, b);
        vstd::arithmetic::div_mod::lemma_div_pos_is_pos(k as int, b);
        assert(b * ((k as int) / b) >= 0) by (nonlinear_arith)
            requires
                b > 0,
                (k as int) / b >= 0,
        ;
    }
    assert(whole_batches(k, m.batch_size as nat) == k as int - (k as int) % b);
    assert((k as int - (k as int) % b) % b == 0) by (nonlinear_arith)
        requires
            b > 0,
    {
        vstd::arithmetic::div_mod::lemma_fundamental_div_mod(k as int, b);
        vstd::arithmetic::div_mod::lemma_mod_multiples_basic(k as int / b, b);
    }
}

/// The table that a list of rows stands for at the target: empty values are
/// NULL.
pub open spec fn stored_table(rows: Seq<Seq<Seq<char>>>) -> Seq<Seq<Option<Seq<char>>>> {
    rows.map_values(
        |r: Seq<Seq<char>>| r.map_values(|f: Seq<char>| crate::copy_text::stored_value(f)),
    )
}

/// The target's rows after a run over the file's `rows`: the first
/// `committed_rows` of them, in file order.
pub open spec fn target_rows(rows: Seq<Seq<Seq<char>>>, m: Migration) -> Seq<
    Seq<Option<Seq<char>>>,
> {
    stored_table(rows.take(m.committed_rows as int))
}

/// Two complete runs over the same rows into empty targets leave the same
/// table, whatever their batch sizes and progress intervals: every row, with
/// the same values, in file order.
pub proof fn lemma_rerun_same_table(m1: Migration, m2: Migration, rows: Seq<Seq<Seq<char>>>)
    requires
        fresh(m1),
        fresh(m2),
        m1.total_rows == rows.len(),
        m2.total_rows == rows.len(),
    ensures
        ({
            let inputs = parsed_rows(rows.len());
            let f1 = finish_spec(run(m1, inputs));
            let f2 = finish_spec(run(m2, inputs));
            &&& f1.committed_rows == f2.committed_rows
            &&& f1.processed_rows == f2.processed_rows
            &&& target_rows(rows, f1) == target_rows(rows, f2)
            &&& target_rows(rows, f1) == stored_table(rows)
        }),
{
    let inputs = parsed_rows(rows.len());
    lemma_progress_within_total(m1, inputs);
    lemma_progress_within_total(m2, inputs);
    let f1 = finish_spec(run(m1, inputs));
    let f2 = finish_spec(run(m2, inputs));
    assert(f1.committed_rows == rows.len());
    assert(f2.committed_rows == rows.len());
    assert(rows.take(rows.len() as int) =~= rows);
}

} // verus!
