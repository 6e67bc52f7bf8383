//! What a run prints and how it ends, from what the work on each card gave.

use vstd::prelude::*;
use vstd::string::*;
use crate::errors::{Failure, TelemetryError};
use crate::pipeline::outcome_view;
use crate::reader::{record_pairs, GpuData, Record};
use crate::serialize::{json_object, Json};

verus! {

/// Where a line is written.
#[derive(Debug, Copy, Clone, Eq, PartialEq, Structural)]
pub enum Stream {
    /// Standard output.
    Stdout,
    /// Standard error.
    Stderr,
}

/// One line of output, without its line end.
#[derive(Debug)]
pub struct Line {
    pub stream: Stream,
    pub text: String,
}

impl View for Line {
    type V = (Stream, Seq<char>);

    open spec fn view(&self) -> (Stream, Seq<char>) {
        (self.stream, self.text@)
    }
}

/// What a run prints, in order, and the exit code of the process.
#[derive(Debug)]
pub struct Report {
    pub lines: Vec<Line>,
    pub exit_code: i32,
}

/// The lines of `lines` as values.
pub open spec fn lines_view(lines: Seq<Line>) -> Seq<(Stream, Seq<char>)> {
    Seq::new(lines.len(), |i: int| lines[i]@)
}

/// What the work on the cards gave, as values.
pub open spec fn outcomes_view(outcomes: Seq<Result<GpuData, TelemetryError>>) -> Seq<
    Result<Record, Failure>,
> {
    Seq::new(outcomes.len(), |i: int| outcome_view(outcomes[i]))
}

/// What a run found, as a value: the failure to list the cards, or what the
/// work on each card gave.
pub open spec fn run_view(found: Result<Vec<Result<GpuData, TelemetryError>>, TelemetryError>) -> Result<
    Seq<Result<Record, Failure>>,
    Failure,
> {
    match found {
        Ok(outcomes) => Ok(outcomes_view(outcomes@)),
        Err(e) => Err(e@),
    }
}

/// The line for one card: its record as a JSON object on standard output, or
/// its error on standard error.
pub open spec fn device_line(outcome: Result<Record, Failure>) -> (Stream, Seq<char>) {
    match outcome {
        Ok(r) => (Stream::Stdout, json_object(record_pairs(r))),
        Err(f) => (Stream::Stderr, "Error reading GPU data: "@ + f.text()),
    }
}

/// The lines of a run: one fatal line where the cards could not be listed,
/// one line that says so where there is no card, and else one line for each
/// card, in the order of the cards.
pub open spec fn report_lines(found: Result<Seq<Result<Record, Failure>>, Failure>) -> Seq<
    (Stream, Seq<char>),
> {
    match found {
        Err(f) => seq![(Stream::Stderr, "Fatal: "@ + f.text())],
        Ok(outcomes) => if outcomes.len() == 0 {
            seq![(Stream::Stdout, "No AMD GPUs detected."@)]
        } else {
            Seq::new(outcomes.len(), |i: int| device_line(outcomes[i]))
        },
    }
}

/// The exit code of a run: 1 where the cards could not be listed, else 0.
pub open spec fn report_exit_code(found: Result<Seq<Result<Record, Failure>>, Failure>) -> i32 {
    if found is Err {
        1i32
    } else {
        0i32
    }
}

/// How many lines of `lines` go to `stream`.
pub open spec fn count_on(lines: Seq<(Stream, Seq<char>)>, stream: Stream) -> nat
    decreases lines.len(),
{
    if lines.len() == 0 {
        0
    } else {
        count_on(lines.drop_last(), stream) + if lines.last().0 == stream {
            1nat
        } else {
            0nat
        }
    }
}

/// How many of `outcomes` are errors.
pub open spec fn failures(outcomes: Seq<Result<Record, Failure>>) -> nat
    decreases outcomes.len(),
{
    if outcomes.len() == 0 {
        0
    } else {
        failures(outcomes.drop_last()) + if outcomes.last() is Err {
            1nat
        } else {
            0nat
        }
    }
}

/// Main logic of a run, once the cards were listed and read: what to print,
/// and the exit code.
pub fn run(found: &Result<Vec<Result<GpuData, TelemetryError>>, TelemetryError>) -> (report: Report)
    ensures
        lines_view(report.lines@) == report_lines(run_view(*found)),
        report.exit_code == report_exit_code(run_view(*found)),
{
    let mut lines: Vec<Line> = Vec::new();
    match found {
        Err(e) => {
            let mut text = String::from_str("Fatal: ");
            text.append(e.message().as_str());
            lines.push(Line { stream: Stream::Stderr, text });
            assert(lines_view(lines@) =~= report_lines(run_view(*found)));
            Report { lines, exit_code: 1 }
        },
        Ok(outcomes) => {
            if outcomes.len() == 0 {
                lines.push(
                    Line { stream: Stream::Stdout, text: String::from_str("No AMD GPUs detected.") },
                );
                assert(lines_view(lines@) =~= report_lines(run_view(*found)));
                return Report { lines, exit_code: 0 };
            }
            let mut i: usize = 0;
            while i < outcomes.len()
                invariant
                    i <= outcomes.len(),
                    lines@.len() == i,
                    forall|k: int| 0 <= k < i ==> (#[trigger] lines@[k])@ == device_line(outcome_view(outcomes@[k])),
                decreases outcomes.len() - i,
            {
                let line = match &outcomes[i] {
                    Ok(data) => Line { stream: Stream::Stdout, text: data.to_json() },
                    Err(e) => {
                        let mut text = String::from_str("Error reading GPU data: ");
                        text.append(e.message().as_str());
                        Line { stream: Stream::Stderr, text }
                    },
                };
                lines.push(line);
                i += 1;
            }
            assert(lines_view(lines@) =~= report_lines(run_view(*found)));
            Report { lines, exit_code: 0 }
        },
    }
}

/// Every card gets exactly one line: with cards, a run prints as many lines
/// as there are cards, the line of a card at the place of the card, on
/// standard output for a record and on standard error for an error.
pub proof fn lemma_one_line_per_device(outcomes: Seq<Result<Record, Failure>>)
    requires
        outcomes.len() > 0,
    ensures
        report_lines(Ok(outcomes)).len() == outcomes.len(),
        forall|i: int| 0 <= i < outcomes.len() ==> #[trigger] report_lines(Ok(outcomes))[i] == device_line(outcomes[i]),
        forall|i: int| 0 <= i < outcomes.len() ==> ((#[trigger] report_lines(Ok(outcomes))[i]).0 == Stream::Stdout <==> outcomes[i] is Ok),
{
}

/// With cards, the lines on standard error are as many as the cards that
/// failed, and the lines on standard output as many as the others.
pub proof fn lemma_lines_by_stream(outcomes: Seq<Result<Record, Failure>>)
    requires
        outcomes.len() > 0,
    ensures
        count_on(report_lines(Ok(outcomes)), Stream::Stderr) == failures(outcomes),
        count_on(report_lines(Ok(outcomes)), Stream::Stdout) == outcomes.len() - failures(outcomes),
{
    lemma_count_device_lines(outcomes);
}

proof fn lemma_count_device_lines(outcomes: Seq<Result<Record, Failure>>)
    ensures
        count_on(Seq::new(outcomes.len(), |i: int| device_line(outcomes[i])), Stream::Stderr)
            == failures(outcomes),
        count_on(Seq::new(outcomes.len(), |i: int| device_line(outcomes[i])), Stream::Stdout)
            == outcomes.len() - failures(outcomes),
    decreases outcomes.len(),
{
    let lines = Seq::new(outcomes.len(), |i: int| device_line(outcomes[i]));
    if outcomes.len() > 0 {
        let shorter = outcomes.drop_last();
        lemma_count_device_lines(shorter);
        assert(lines.drop_last() =~= Seq::new(shorter.len(), |i: int| device_line(shorter[i])));
        assert(lines.last() == device_line(outcomes.last()));
    }
}

/// Where exactly one of the cards failed, whichever it is, a run prints one
/// line for each card: an error line for the one that failed, at its place,
/// and the JSON object of its record for each of the others.
pub proof fn lemma_one_failure_among_many(outcomes: Seq<Result<Record, Failure>>, k: int)
    requires
        0 <= k < outcomes.len(),
        outcomes[k] is Err,
        forall|i: int| 0 <= i < outcomes.len() && i != k ==> (#[trigger] outcomes[i]) is Ok,
    ensures
        report_lines(Ok(outcomes)).len() == outcomes.len(),
        count_on(report_lines(Ok(outcomes)), Stream::Stderr) == 1,
        count_on(report_lines(Ok(outcomes)), Stream::Stdout) == outcomes.len() - 1,
        report_lines(Ok(outcomes))[k].0 == Stream::Stderr,
        forall|i: int| 0 <= i < outcomes.len() && i != k ==> #[trigger] report_lines(Ok(outcomes))[i] == (
            Stream::Stdout,
            json_object(record_pairs(outcomes[i]->Ok_0)),
        ),
{
    lemma_lines_by_stream(outcomes);
    lemma_failures_one(outcomes, k);
}

proof fn lemma_failures_one(outcomes: Seq<Result<Record, Failure>>, k: int)
    requires
        0 <= k < outcomes.len(),
        outcomes[k] is Err,
        forall|i: int| 0 <= i < outcomes.len() && i != k ==> (#[trigger] outcomes[i]) is Ok,
    ensures
        failures(outcomes) == 1,
    decreases outcomes.len(),
{
    let shorter = outcomes.drop_last();
    if k == outcomes.len() - 1 {
        lemma_failures_none(shorter);
    } else {
        lemma_failures_one(shorter, k);
    }
}

proof fn lemma_failures_none(outcomes: Seq<Result<Record, Failure>>)
    requires
        forall|i: int| 0 <= i < outcomes.len() ==> (#[trigger] outcomes[i]) is Ok,
    ensures
        failures(outcomes) == 0,
    decreases outcomes.len(),
{
    if outcomes.len() > 0 {
        lemma_failures_none(outcomes.drop_last());
    }
}

} // verus!
