//! The plan of an ingest: what is done for each line of the source.
//!
//! Each line is its own unit. A line that is no record is skipped and
//! reported, and the lines after it are still ingested.
use crate::record::{parse_line, parse_record, ParseError};
use crate::sql::{ack_message, acknowledgement, insert_sql, insert_statement};
use crate::text::{lines_of, split_lines, texts};
use vstd::prelude::*;

verus! {

/// What is done for one line.
#[derive(Debug)]
pub enum LineOutcome {
    /// The line is a record: `statement` is run, then `ack` is printed.
    Write { statement: String, ack: String },
    /// The line is no record: nothing is written for it.
    Skip { error: ParseError },
}

/// Whether `outcome` is what is done for `line` on an ingest into `table`.
pub open spec fn outcome_is(outcome: LineOutcome, table: Seq<char>, line: Seq<char>) -> bool {
    match parse_line(line) {
        Ok(values) => {
            &&& outcome is Write
            &&& outcome->statement@ == insert_statement(table, values)
            &&& outcome->ack@ == acknowledgement(values)
        },
        Err(e) => outcome == (LineOutcome::Skip { error: e }),
    }
}

/// The statements that an ingest of `lines` into `table` runs, in order:
/// one for each line that is a record.
pub open spec fn statements_of(table: Seq<char>, lines: Seq<Seq<char>>) -> Seq<Seq<char>>
    decreases lines.len(),
{
    if lines.len() == 0 {
        Seq::empty()
    } else {
        let before = statements_of(table, lines.drop_last());
        match parse_line(lines.last()) {
            Ok(values) => before.push(insert_statement(table, values)),
            Err(_) => before,
        }
    }
}

/// The statements that a plan asks to run, in order.
pub open spec fn planned_statements(plan: Seq<LineOutcome>) -> Seq<Seq<char>>
    decreases plan.len(),
{
    if plan.len() == 0 {
        Seq::empty()
    } else {
        let before = planned_statements(plan.drop_last());
        match plan.last() {
            LineOutcome::Write { statement, .. } => before.push(statement@),
            LineOutcome::Skip { .. } => before,
        }
    }
}

/// A plan that holds the outcome of each line asks for the statements of
/// the lines that are records, and for no other.
pub proof fn lemma_plan_runs_statements(
    plan: Seq<LineOutcome>,
    table: Seq<char>,
    lines: Seq<Seq<char>>,
)
    requires
        plan.len() == lines.len(),
        forall|i: int| 0 <= i < plan.len() ==> outcome_is(#[trigger] plan[i], table, lines[i]),
    ensures
        planned_statements(plan) == statements_of(table, lines),
    decreases plan.len(),
{
    if plan.len() > 0 {
        let n = plan.len() - 1;
        assert(outcome_is(plan[n], table, lines[n]));
        assert forall|i: int| 0 <= i < n implies outcome_is(
            #[trigger] plan.drop_last()[i],
            table,
            lines.drop_last()[i],
        ) by {
            assert(outcome_is(plan[i], table, lines[i]));
        }
        lemma_plan_runs_statements(plan.drop_last(), table, lines.drop_last());
    }
}

/// Decides what is done for one line of the source.
pub fn plan_line(table: &str, line: &str) -> (r: LineOutcome)
    ensures
        outcome_is(r, table@, line@),
{
    match parse_record(line) {
        Ok(record) => {
            let statement = insert_sql(table, &record);
            let ack = ack_message(&record);
            LineOutcome::Write { statement, ack }
        },
        Err(error) => LineOutcome::Skip { error },
    }
}

/// Plans the ingest of a whole text into `table`: one outcome for each
/// line, in the order of the lines, each decided by its own line alone.
pub fn plan_ingest(table: &str, content: &str) -> (r: Vec<LineOutcome>)
    ensures
        r.len() == lines_of(content@).len(),
        forall|i: int|
            0 <= i < r.len() ==> outcome_is(#[trigger] r[i], table@, lines_of(content@)[i]),
        planned_statements(r@) == statements_of(table@, lines_of(content@)),
{
    let lines = split_lines(content);
    let mut plan: Vec<LineOutcome> = Vec::new();
    let mut i: usize = 0;
    while i < lines.len()
        invariant
            i <= lines.len(),
            texts(lines@) == lines_of(content@),
            plan.len() == i,
            forall|k: int|
                0 <= k < i ==> outcome_is(#[trigger] plan[k], table@, lines_of(content@)[k]),
        decreases lines.len() - i,
    {
        assert(texts(lines@)[i as int] == lines@[i as int]@);
        let outcome = plan_line(table, lines[i].as_str());
        plan.push(outcome);
        i += 1;
    }
    proof {
        lemma_plan_runs_statements(plan@, table@, lines_of(content@));
    }
    plan
}

/// A line that is no record adds nothing to what an ingest writes and
/// takes nothing from it: with the line or without it, the statements run
/// for the other lines are the same.
pub proof fn lemma_malformed_line_is_isolated(table: Seq<char>, lines: Seq<Seq<char>>, j: int)
    requires
        0 <= j < lines.len(),
        parse_line(lines[j]) is Err,
    ensures
        statements_of(table, lines.remove(j)) == statements_of(table, lines),
    decreases lines.len(),
{
    if j == lines.len() - 1 {
        assert(lines.remove(j) =~= lines.drop_last());
    } else {
        let shorter = lines.remove(j);
        assert(shorter.drop_last() =~= lines.drop_last().remove(j));
        assert(shorter.last() == lines.last());
        lemma_malformed_line_is_isolated(table, lines.drop_last(), j);
    }
}

/// Where a run stands: its plan, the number of lines that are done, and
/// whether a failed write has ended it.
pub struct RunState {
    pub plan: Seq<LineOutcome>,
    pub done: nat,
    pub aborted: bool,
}

/// Whether nothing is left to do: the run was ended, or every line is done.
pub open spec fn is_over(state: RunState) -> bool {
    state.aborted || state.done >= state.plan.len()
}

/// Where a run stands after the step for its current line was taken;
/// `write_ok` says whether the store ran the statement, and counts only
/// where the line asked for one. A failed write ends the run with the line
/// not done; anything else makes the line done. A run that is over stays
/// as it is.
pub open spec fn state_after(state: RunState, write_ok: bool) -> RunState {
    if is_over(state) {
        state
    } else if state.plan[state.done as int] is Write && !write_ok {
        RunState { aborted: true, ..state }
    } else {
        RunState { done: state.done + 1, ..state }
    }
}

/// The run of a plan, line by line. The caller performs what the current
/// line asks for and reports how it went.
pub struct IngestRun {
    plan: Vec<LineOutcome>,
    done: usize,
    aborted: bool,
}

impl View for IngestRun {
    type V = RunState;

    closed spec fn view(&self) -> RunState {
        RunState { plan: self.plan@, done: self.done as nat, aborted: self.aborted }
    }
}

impl IngestRun {
    #[verifier::type_invariant]
    spec fn well_formed(&self) -> bool {
        self.done <= self.plan.len()
    }

    /// Starts the run of `plan` at its first line.
    pub fn new(plan: Vec<LineOutcome>) -> (r: IngestRun)
        ensures
            r@ == (RunState { plan: plan@, done: 0, aborted: false }),
    {
        IngestRun { plan, done: 0, aborted: false }
    }

    /// What the current line asks for, or nothing where the run is over.
    pub fn current(&self) -> (r: Option<&LineOutcome>)
        ensures
            self@.done <= self@.plan.len(),
            match r {
                Some(outcome) => !is_over(self@) && *outcome == self@.plan[self@.done as int],
                None => is_over(self@),
            },
    {
        proof {
            use_type_invariant(self);
        }
        if self.aborted || self.done >= self.plan.len() {
            None
        } else {
            Some(&self.plan[self.done])
        }
    }

    /// Whether a failed write has ended the run.
    pub fn is_aborted(&self) -> (r: bool)
        ensures
            r == self@.aborted,
    {
        self.aborted
    }

    /// The number of lines that are done.
    pub fn lines_done(&self) -> (r: usize)
        ensures
            r == self@.done,
            self@.done <= self@.plan.len(),
    {
        proof {
            use_type_invariant(self);
        }
        self.done
    }

    /// Takes note of how the step for the current line went.
    pub fn advance(&mut self, write_ok: bool)
        ensures
            final(self)@ == state_after(old(self)@, write_ok),
    {
        proof {
            use_type_invariant(&*self);
        }
        if self.aborted || self.done >= self.plan.len() {
            return ;
        }
        let failed = match &self.plan[self.done] {
            LineOutcome::Write { .. } => !write_ok,
            LineOutcome::Skip { .. } => false,
        };
        if failed {
            self.aborted = true;
        } else {
            self.done = self.done + 1;
        }
    }
}

/// A run that is over stays over, whatever is reported to it.
pub proof fn lemma_over_stays_over(state: RunState, write_ok: bool)
    requires
        is_over(state),
    ensures
        state_after(state, write_ok) == state,
{
}

/// A line that is no record never ends the run: after its step the line is
/// done and the run goes on with the next, whatever is reported.
pub proof fn lemma_skip_goes_on(state: RunState, write_ok: bool)
    requires
        !is_over(state),
        state.plan[state.done as int] is Skip,
    ensures
        state_after(state, write_ok).done == state.done + 1,
        !state_after(state, write_ok).aborted,
        state_after(state, write_ok).plan == state.plan,
{
}

/// A failed write ends the run where it stands: no further line is done.
pub proof fn lemma_failed_write_ends_run(state: RunState, later: bool)
    requires
        !is_over(state),
        state.plan[state.done as int] is Write,
    ensures
        state_after(state, false).aborted,
        state_after(state, false).done == state.done,
        state_after(state_after(state, false), later) == state_after(state, false),
{
}

} // verus!
