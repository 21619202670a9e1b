//! The adjacency collapser: one run for each stretch of consecutive lines
//! with the same content.

use crate::driver::{
    decode_failure, error_line, format_error, Opened, OpenedView, Output, OutputView,
};
use crate::reader::{
    items_of, LineItem, LineReader, LineRecord, LineView, malformed_in, records_in, records_of,
};
use crate::text::{push_right_aligned, right_aligned};

use vstd::prelude::*;
use vstd::string::StringExecFns;

verus! {

/// The width of the column in which the length of a run is shown.
pub const COUNT_WIDTH: usize = 4;

/// Which source to collapse, where the result goes, and whether the length
/// of each run is shown.
#[derive(Debug, PartialEq, Eq)]
pub struct Config {
    pub in_file: String,
    pub out_file: Option<String>,
    pub count: bool,
}

/// A run: the first of its lines, and how many lines it holds.
#[derive(Debug, PartialEq, Eq)]
pub struct Run {
    pub record: LineRecord,
    pub count: u64,
}

/// What a run stands for.
pub struct RunView {
    pub first: LineView,
    pub count: nat,
}

impl View for Run {
    type V = RunView;

    open spec fn view(&self) -> RunView {
        RunView { first: self.record@, count: self.count as nat }
    }
}

/// What an optional run stands for.
pub open spec fn run_view(run: Option<Run>) -> Option<RunView> {
    match run {
        Some(r) => Some(r@),
        None => None,
    }
}

/// One step of the collapser: the pending run and the next line give the
/// new pending run, and the run that is emitted, if one is. A line with the
/// content of the pending run makes that run longer; any other line emits
/// the pending run and starts a run of one line.
pub open spec fn step(pending: Option<RunView>, line: LineView) -> (
    Option<RunView>,
    Option<RunView>,
) {
    match pending {
        Some(run) => if run.first.content == line.content {
            (Some(RunView { first: run.first, count: run.count + 1 }), None)
        } else {
            (Some(RunView { first: line, count: 1 }), Some(run))
        },
        None => (Some(RunView { first: line, count: 1 }), None),
    }
}

/// The runs of `lines`, in order.
pub open spec fn runs_of(lines: Seq<LineView>) -> Seq<RunView>
    decreases lines.len(),
{
    if lines.len() == 0 {
        Seq::empty()
    } else {
        let before = runs_of(lines.drop_last());
        let line = lines.last();
        if before.len() > 0 && before.last().first.content == line.content {
            before.drop_last().push(
                RunView { first: before.last().first, count: before.last().count + 1 },
            )
        } else {
            before.push(RunView { first: line, count: 1 })
        }
    }
}

/// The runs emitted so far and the pending run after them.
pub open spec fn with_pending(emitted: Seq<RunView>, pending: Option<RunView>) -> Seq<RunView> {
    match pending {
        Some(run) => emitted.push(run),
        None => emitted,
    }
}

/// The state of the collapser: the pending run, if a line has been read.
pub struct RunState {
    pending: Option<Run>,
}

impl RunState {
    #[verifier::type_invariant]
    spec fn inv(self) -> bool {
        self.pending matches Some(run) ==> run.count >= 1
    }

    /// The pending run.
    pub closed spec fn pending(self) -> Option<RunView> {
        run_view(self.pending)
    }

    /// The state before any line: no pending run.
    pub fn new() -> (state: RunState)
        ensures
            state.pending() is None,
    {
        RunState { pending: None }
    }

    /// The length of the pending run, or zero where there is none.
    pub fn run_length(&self) -> (n: u64)
        ensures
            n == match self.pending() {
                Some(run) => run.count,
                None => 0,
            },
            self.pending() is Some ==> n >= 1,
    {
        proof {
            use_type_invariant(self);
        }
        match &self.pending {
            Some(run) => run.count,
            None => 0,
        }
    }

    /// Takes one line: hands back the new state and the run that the line
    /// closed, if it closed one.
    pub fn step(self, record: LineRecord) -> (result: (RunState, Option<Run>))
        requires
            self.pending() matches Some(run) ==> run.count < u64::MAX,
        ensures
            (result.0.pending(), run_view(result.1)) == step(self.pending(), record@),
    {
        match self.pending {
            Some(run) => {
                if run.record.same_content(&record) {
                    (
                        RunState {
                            pending: Some(Run { record: run.record, count: run.count + 1 }),
                        },
                        None,
                    )
                } else {
                    (RunState { pending: Some(Run { record, count: 1 }) }, Some(run))
                }
            },
            None => (RunState { pending: Some(Run { record, count: 1 }) }, None),
        }
    }

    /// Ends the source: hands back the pending run, if there is one. Its
    /// length is at least one.
    pub fn finish(self) -> (last: Option<Run>)
        ensures
            run_view(last) == self.pending(),
            last matches Some(run) ==> run.count >= 1,
    {
        proof {
            use_type_invariant(&self);
        }
        self.pending
    }
}

/// What each of `runs` stands for, in order.
pub open spec fn run_views(runs: Seq<Run>) -> Seq<RunView> {
    runs.map_values(|run: Run| run@)
}

/// After one more line the runs are those emitted before, the run that
/// the step emits, and the new pending run.
pub proof fn lemma_runs_step(
    lines: Seq<LineView>,
    emitted: Seq<RunView>,
    pending: Option<RunView>,
    line: LineView,
)
    requires
        runs_of(lines) == with_pending(emitted, pending),
        pending is None ==> emitted.len() == 0,
    ensures
        runs_of(lines.push(line)) == with_pending(
            with_pending(emitted, step(pending, line).1),
            step(pending, line).0,
        ),
{
    assert(lines.push(line).drop_last() =~= lines);
}

/// The runs of a source, and how many of its lines were not UTF-8.
#[derive(Debug, PartialEq, Eq)]
pub struct Collapsed {
    pub runs: Vec<Run>,
    pub malformed: usize,
}

/// Collapses one source: reads all its lines and hands back their runs. A
/// line that is not UTF-8 is counted and belongs to no run.
pub fn collapse(data: &[u8]) -> (collapsed: Collapsed)
    ensures
        run_views(collapsed.runs@) == runs_of(records_of(data@)),
        collapsed.malformed == malformed_in(items_of(data@)),
        forall|i: int|
            0 <= i < collapsed.runs@.len() ==> (#[trigger] collapsed.runs@[i]).count >= 1,
{
    let mut reader = LineReader::new(data);
    let mut runs: Vec<Run> = Vec::new();
    let mut state = RunState::new();
    let mut malformed: usize = 0;
    let ghost mut done: Seq<LineItem> = Seq::empty();
    proof {
        assert(data@.len() == data.len());
    }
    loop
        invariant
            reader.source() == data@,
            reader.consumed() <= data@.len(),
            data@.len() <= usize::MAX,
            items_of(data@) == done + reader.pending(),
            runs_of(records_in(done)) == with_pending(run_views(runs@), state.pending()),
            state.pending() is None ==> runs@.len() == 0,
            state.pending() matches Some(run) ==> run.count <= reader.consumed(),
            malformed == malformed_in(done),
            malformed <= reader.consumed(),
        ensures
            reader.pending().len() == 0,
        decreases data@.len() - reader.consumed(),
    {
        let ghost pending = reader.pending();
        match reader.next_line() {
            None => {
                break ;
            },
            Some(outcome) => {
                match outcome {
                    Ok(record) => {
                        proof {
                            lemma_runs_step(
                                records_in(done),
                                run_views(runs@),
                                state.pending(),
                                record@,
                            );
                        }
                        let (next, emitted) = state.step(record);
                        state = next;
                        if let Some(run) = emitted {
                            runs.push(run);
                        }
                    },
                    Err(_) => {
                        malformed = malformed + 1;
                    },
                }
                proof {
                    assert(done.push(pending[0]).drop_last() =~= done);
                    done = done.push(pending[0]);
                }
            },
        }
    }
    let ghost before = run_views(runs@);
    match state.finish() {
        Some(run) => {
            runs.push(run);
            assert(run_views(runs@) =~= before.push(run@));
        },
        None => {},
    }
    proof {
        lemma_runs_positive(records_of(data@));
        assert forall|i: int| 0 <= i < runs@.len() implies (#[trigger] runs@[i]).count >= 1 by {
            assert(run_views(runs@)[i] == runs@[i]@);
        }
    }
    Collapsed { runs, malformed }
}

/// The lengths of `runs`, added up.
pub open spec fn total_count(runs: Seq<RunView>) -> nat
    decreases runs.len(),
{
    if runs.len() == 0 {
        0
    } else {
        total_count(runs.drop_last()) + runs.last().count
    }
}

/// The content of each run as often as the run is long, run after run.
pub open spec fn expanded(runs: Seq<RunView>) -> Seq<Seq<char>>
    decreases runs.len(),
{
    if runs.len() == 0 {
        Seq::empty()
    } else {
        expanded(runs.drop_last()) + Seq::new(
            runs.last().count,
            |i: int| runs.last().first.content,
        )
    }
}

/// The content of each of `lines`, in order.
pub open spec fn contents(lines: Seq<LineView>) -> Seq<Seq<char>> {
    lines.map_values(|line: LineView| line.content)
}

/// No run is empty: every run of any sequence of lines holds at least one
/// line.
pub proof fn lemma_runs_positive(lines: Seq<LineView>)
    ensures
        forall|i: int| 0 <= i < runs_of(lines).len() ==> (#[trigger] runs_of(lines)[i]).count >= 1,
        lines.len() == 0 ==> runs_of(lines).len() == 0,
    decreases lines.len(),
{
    if lines.len() > 0 {
        lemma_runs_positive(lines.drop_last());
    }
}

/// The lengths of the runs add up to the number of lines.
pub proof fn lemma_runs_total(lines: Seq<LineView>)
    ensures
        total_count(runs_of(lines)) == lines.len(),
    decreases lines.len(),
{
    if lines.len() > 0 {
        lemma_runs_total(lines.drop_last());
        let before = runs_of(lines.drop_last());
        let after = runs_of(lines);
        if before.len() > 0 && before.last().first.content == lines.last().content {
            assert(after.drop_last() =~= before.drop_last());
        } else {
            assert(after.drop_last() =~= before);
        }
    }
}

/// Writing the content of each run as often as the run is long gives back
/// the content of the lines, line by line.
pub proof fn lemma_runs_expand(lines: Seq<LineView>)
    ensures
        expanded(runs_of(lines)) == contents(lines),
    decreases lines.len(),
{
    if lines.len() > 0 {
        lemma_runs_expand(lines.drop_last());
        let before = runs_of(lines.drop_last());
        let after = runs_of(lines);
        let line = lines.last();
        assert(contents(lines) =~= contents(lines.drop_last()).push(line.content));
        if before.len() > 0 && before.last().first.content == line.content {
            assert(after.drop_last() =~= before.drop_last());
        } else {
            assert(after.drop_last() =~= before);
        }
    }
}

/// Runs are maximal: two runs that follow each other differ in content, so
/// lines with the same content that do not follow each other stay apart.
pub proof fn lemma_runs_maximal(lines: Seq<LineView>)
    ensures
        forall|i: int|
            0 < i < runs_of(lines).len() ==> (#[trigger] runs_of(lines)[i]).first.content
                != runs_of(lines)[i - 1].first.content,
        lines.len() > 0 ==> runs_of(lines).len() > 0 && runs_of(lines).last().first.content
            == lines.last().content,
    decreases lines.len(),
{
    if lines.len() > 0 {
        lemma_runs_maximal(lines.drop_last());
    }
}

/// A run as it is written: the first of its lines as it stood in the
/// source, after the length of the run where lengths are shown.
pub open spec fn run_text(run: RunView, count: bool) -> Seq<char> {
    if count {
        right_aligned(run.count, COUNT_WIDTH as nat) + seq![' '] + run.first.text()
    } else {
        run.first.text()
    }
}

/// `runs` as they are written, one after the other.
pub open spec fn runs_text(runs: Seq<RunView>, count: bool) -> Seq<char>
    decreases runs.len(),
{
    if runs.len() == 0 {
        Seq::empty()
    } else {
        runs_text(runs.drop_last(), count) + run_text(runs.last(), count)
    }
}

/// Writes one run.
pub fn format_run(run: &Run, count: bool) -> (text: String)
    ensures
        text@ == run_text(run@, count),
{
    let mut text = String::new();
    if count {
        proof {
            reveal_strlit(" ");
        }
        push_right_aligned(&mut text, run.count, COUNT_WIDTH);
        text.append(" ");
    }
    text.append(run.record.content());
    text.append(run.record.ending().as_str());
    text
}

/// What is written for a source that was opened: its runs, and on the
/// error channel one line for each of its lines that is not UTF-8.
pub open spec fn collapsed_output(s: Seq<u8>, name: Seq<char>, count: bool) -> OutputView {
    OutputView::text(runs_text(runs_of(records_of(s)), count)).with_errors(
        error_line(name, decode_failure()),
        malformed_in(items_of(s)),
    )
}

/// Collapses the source that `config` names, `opened` holding what opening
/// it gave. A source that could not be opened ends the run with the line
/// that reports the failure.
pub fn run(config: &Config, opened: &Opened) -> (result: Result<Output, String>)
    ensures
        match opened@ {
            OpenedView::Stream(s) => result matches Ok(output) && output@ == collapsed_output(
                s,
                config.in_file@,
                config.count,
            ),
            OpenedView::Failure(reason) => result matches Err(line) && line@ == error_line(
                config.in_file@,
                reason,
            ),
        },
{
    let name = config.in_file.as_str();
    match opened {
        Opened::Failure(reason) => Err(format_error(name, reason.as_str())),
        Opened::Stream(bytes) => {
            let collapsed = collapse(bytes.as_slice());
            let ghost views = run_views(collapsed.runs@);
            let mut text = String::new();
            let mut k: usize = 0;
            while k < collapsed.runs.len()
                invariant
                    k <= collapsed.runs@.len(),
                    views == run_views(collapsed.runs@),
                    text@ == runs_text(views.take(k as int), config.count),
                decreases collapsed.runs@.len() - k,
            {
                proof {
                    assert(views.take(k + 1).drop_last() =~= views.take(k as int));
                }
                text.append(format_run(&collapsed.runs[k], config.count).as_str());
                k = k + 1;
            }
            assert(views.take(k as int) =~= views);
            let mut output = Output::new();
            output.write(text.as_str());
            output.report_malformed(name, collapsed.malformed);
            Ok(output)
        },
    }
}

} // verus!
