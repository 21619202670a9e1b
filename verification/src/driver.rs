//! What the engines share when they work through several sources: what
//! opening a source gave, and what a run hands to the output sink and to the
//! error channel.

use vstd::prelude::*;
use vstd::string::StringExecFns;

verus! {

/// The name that stands for standard input.
pub open spec fn stdin_name() -> Seq<char> {
    seq!['-']
}

/// Whether `name` stands for standard input.
pub fn is_stdin(name: &str) -> (b: bool)
    ensures
        b == (name@ == stdin_name()),
{
    if name.unicode_len() == 1 {
        let c = name.get_char(0);
        assert(name@ =~= seq![c]);
        c == '-'
    } else {
        false
    }
}

/// The names to work through: those given, or standard input alone where
/// none is given.
pub open spec fn resolved_names(files: Seq<Seq<char>>) -> Seq<Seq<char>> {
    if files.len() == 0 {
        seq![stdin_name()]
    } else {
        files
    }
}

/// Puts standard input in place of an empty list of names.
pub fn resolve_names(files: Vec<String>) -> (names: Vec<String>)
    ensures
        names.deep_view() == resolved_names(files.deep_view()),
{
    if files.len() == 0 {
        proof {
            reveal_strlit("-");
        }
        let dash = "-";
        assert(dash@ =~= stdin_name());
        let mut names: Vec<String> = Vec::new();
        names.push(String::from_str(dash));
        names
    } else {
        files
    }
}

/// What opening one source gave: its bytes, or the reason why it could not
/// be opened.
#[derive(Debug, PartialEq, Eq)]
pub enum Opened {
    Stream(Vec<u8>),
    Failure(String),
}

/// What an `Opened` stands for.
pub enum OpenedView {
    Stream(Seq<u8>),
    Failure(Seq<char>),
}

impl View for Opened {
    type V = OpenedView;

    open spec fn view(&self) -> OpenedView {
        match self {
            Opened::Stream(bytes) => OpenedView::Stream(bytes@),
            Opened::Failure(reason) => OpenedView::Failure(reason@),
        }
    }
}

/// The bytes of a source that was opened; none of one that was not.
pub open spec fn stream_len(opened: OpenedView) -> nat {
    match opened {
        OpenedView::Stream(s) => s.len(),
        OpenedView::Failure(_) => 0,
    }
}

impl Opened {
    /// The number of bytes that were read; none where the source could not
    /// be opened.
    pub fn len(&self) -> (n: usize)
        ensures
            n == stream_len(self@),
    {
        match self {
            Opened::Stream(bytes) => bytes.len(),
            Opened::Failure(_) => 0,
        }
    }
}

/// What each of `inputs` stands for, in order.
pub open spec fn views_of(inputs: Seq<Opened>) -> Seq<OpenedView> {
    inputs.map_values(|opened: Opened| opened@)
}

/// What a run produced: the text for the output sink, and the lines for the
/// error channel, each in the order in which it was written.
#[derive(Debug, PartialEq, Eq)]
pub struct Output {
    pub out: String,
    pub err: Vec<String>,
}

/// What an `Output` stands for.
#[verifier::ext_equal]
pub struct OutputView {
    pub out: Seq<char>,
    pub err: Seq<Seq<char>>,
}

impl OutputView {
    /// An output with nothing in it.
    pub open spec fn empty() -> OutputView {
        OutputView { out: Seq::empty(), err: Seq::empty() }
    }

    /// Text for the sink alone.
    pub open spec fn text(out: Seq<char>) -> OutputView {
        OutputView { out, err: Seq::empty() }
    }

    /// This output with `next` after it.
    pub open spec fn followed_by(self, next: OutputView) -> OutputView {
        OutputView { out: self.out + next.out, err: self.err + next.err }
    }

    /// This output and after it `n` times the line `line` on the error channel.
    pub open spec fn with_errors(self, line: Seq<char>, n: nat) -> OutputView {
        OutputView { out: self.out, err: self.err + Seq::new(n, |i: int| line) }
    }
}

impl View for Output {
    type V = OutputView;

    open spec fn view(&self) -> OutputView {
        OutputView { out: self.out@, err: self.err.deep_view() }
    }
}

/// The line that reports a failure on the source `name`.
pub open spec fn error_line(name: Seq<char>, reason: Seq<char>) -> Seq<char> {
    name + seq![':', ' '] + reason
}

/// The reason given for a line that is not UTF-8.
pub open spec fn decode_failure() -> Seq<char> {
    "stream did not contain valid UTF-8"@
}

/// Builds the line that reports a failure on the source `name`.
pub fn format_error(name: &str, reason: &str) -> (line: String)
    ensures
        line@ == error_line(name@, reason@),
{
    proof {
        reveal_strlit(": ");
    }
    let sep = ": ";
    let mut line = String::from_str(name);
    line.append(sep);
    line.append(reason);
    line
}

impl Output {
    /// An output with nothing in it.
    pub fn new() -> (output: Output)
        ensures
            output@ == OutputView::empty(),
    {
        let output = Output { out: String::new(), err: Vec::new() };
        output
    }

    /// Adds `text` to what goes to the sink.
    pub fn write(&mut self, text: &str)
        ensures
            final(self)@ == old(self)@.followed_by(OutputView::text(text@)),
    {
        self.out.append(text);
    }

    /// Adds all of `next` after what is here.
    pub fn append(&mut self, next: Output)
        ensures
            final(self)@ == old(self)@.followed_by(next@),
    {
        let mut next = next;
        self.out.append(next.out.as_str());
        self.err.append(&mut next.err);
    }

    /// Adds one line to what goes to the error channel.
    pub fn report(&mut self, line: String)
        ensures
            final(self)@ == old(self)@.with_errors(line@, 1),
    {
        self.err.push(line);
    }

    /// Reports `count` lines of the source `name` that are not UTF-8: one
    /// line on the error channel for each.
    pub fn report_malformed(&mut self, name: &str, count: usize)
        ensures
            final(self)@ == old(self)@.with_errors(
                error_line(name@, decode_failure()),
                count as nat,
            ),
    {
        let ghost line = error_line(name@, decode_failure());
        let mut i: usize = 0;
        while i < count
            invariant
                i <= count,
                line == error_line(name@, decode_failure()),
                self@ == old(self)@.with_errors(line, i as nat),
            decreases count - i,
        {
            self.report(format_error(name, "stream did not contain valid UTF-8"));
            i = i + 1;
        }
    }

    /// An output that holds the failure to open the source `name`, and
    /// nothing else.
    pub fn open_failure(name: &str, reason: &str) -> (output: Output)
        ensures
            output@ == OutputView::empty().with_errors(error_line(name@, reason@), 1),
    {
        let mut output = Output::new();
        output.report(format_error(name, reason));
        output
    }
}

/// The bytes of the first `k` of `inputs`, all together.
pub open spec fn streams_len(inputs: Seq<OpenedView>, k: nat) -> nat
    decreases k,
{
    if k == 0 {
        0
    } else {
        streams_len(inputs, (k - 1) as nat) + stream_len(inputs[k - 1])
    }
}

/// The bytes counted grow with each source.
pub proof fn lemma_streams_len_grows(inputs: Seq<OpenedView>, i: nat, j: nat)
    requires
        i <= j,
    ensures
        streams_len(inputs, i) <= streams_len(inputs, j),
    decreases j,
{
    if i < j {
        lemma_streams_len_grows(inputs, i, (j - 1) as nat);
    }
}

/// Adds up the bytes of the sources that were opened; nothing where the sum
/// does not fit.
pub fn total_len(inputs: &Vec<Opened>) -> (total: Option<usize>)
    ensures
        match total {
            Some(n) => n == streams_len(views_of(inputs@), inputs@.len()),
            None => streams_len(views_of(inputs@), inputs@.len()) > usize::MAX,
        },
{
    let ghost views = views_of(inputs@);
    let mut sum: usize = 0;
    let mut i: usize = 0;
    while i < inputs.len()
        invariant
            i <= inputs@.len(),
            views == views_of(inputs@),
            sum == streams_len(views, i as nat),
        decreases inputs@.len() - i,
    {
        let len = inputs[i].len();
        proof {
            lemma_streams_len_grows(views, (i + 1) as nat, inputs@.len());
        }
        sum = match sum.checked_add(len) {
            Some(next) => next,
            None => {
                return None;
            },
        };
        i = i + 1;
    }
    Some(sum)
}

} // verus!
