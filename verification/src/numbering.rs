//! The numbering transform: each line again, with a running number before
//! it where the mode asks for one.

use crate::driver::{
    decode_failure, error_line, lemma_streams_len_grows, Opened, OpenedView, Output, OutputView,
    resolve_names, resolved_names, stream_len, streams_len, views_of,
};
use crate::error::ConfigError;
use crate::reader::{
    items_of, joined_text, LineItem, LineReader, LineRecord, LineView, malformed_in, records_in,
    records_of,
};
use crate::text::{decimal, push_decimal};

use vstd::prelude::*;
use vstd::string::StringExecFns;

verus! {

/// Which lines get a number.
#[derive(Clone, Copy, Debug, PartialEq, Eq, Structural)]
pub enum Numbering {
    /// None: lines pass through as they are.
    Off,
    /// Every line.
    All,
    /// Every line that has content.
    NonBlank,
}

/// Which sources to write out, and how to number their lines.
#[derive(Debug, PartialEq, Eq)]
pub struct Config {
    pub files: Vec<String>,
    pub number_lines: bool,
    pub number_nonblank_lines: bool,
}

/// The mode that two switches select; where both are on, blank lines stay
/// without a number.
pub open spec fn mode_of(number_lines: bool, number_nonblank_lines: bool) -> Numbering {
    if number_nonblank_lines {
        Numbering::NonBlank
    } else if number_lines {
        Numbering::All
    } else {
        Numbering::Off
    }
}

impl Config {
    /// The mode that this configuration selects.
    pub fn mode(&self) -> (mode: Numbering)
        ensures
            mode == mode_of(self.number_lines, self.number_nonblank_lines),
    {
        if self.number_nonblank_lines {
            Numbering::NonBlank
        } else if self.number_lines {
            Numbering::All
        } else {
            Numbering::Off
        }
    }
}

/// Checks the switches of a numbering: to number all lines and to number
/// only those with content cannot both be asked for.
pub fn get_args(files: Vec<String>, number_lines: bool, number_nonblank_lines: bool) -> (result:
    Result<Config, ConfigError>)
    ensures
        result is Err <==> number_lines && number_nonblank_lines,
        result matches Err(e) ==> e == ConfigError::NumberWithNonblank,
        result matches Ok(config) ==> {
            &&& config.files.deep_view() == resolved_names(files.deep_view())
            &&& config.number_lines == number_lines
            &&& config.number_nonblank_lines == number_nonblank_lines
        },
{
    if number_lines && number_nonblank_lines {
        return Err(ConfigError::NumberWithNonblank);
    }
    Ok(Config { files: resolve_names(files), number_lines, number_nonblank_lines })
}

/// Whether `line` gets a number under `mode`.
pub open spec fn is_numbered(mode: Numbering, line: LineView) -> bool {
    match mode {
        Numbering::Off => false,
        Numbering::All => true,
        Numbering::NonBlank => !line.is_blank(),
    }
}

/// `line` as it is written when `next` is the next number to give: the
/// number, a space and the line where the line gets a number, else the
/// line alone.
pub open spec fn numbered_line(mode: Numbering, next: nat, line: LineView) -> Seq<char> {
    if is_numbered(mode, line) {
        decimal(next) + seq![' '] + line.text()
    } else {
        line.text()
    }
}

/// The next number to give after `lines`, when `start` was the next
/// before them.
pub open spec fn number_after(mode: Numbering, start: nat, lines: Seq<LineView>) -> nat
    decreases lines.len(),
{
    if lines.len() == 0 {
        start
    } else {
        number_after(mode, start, lines.drop_last()) + if is_numbered(mode, lines.last()) {
            1nat
        } else {
            0nat
        }
    }
}

/// `lines` as they are written when `start` is the next number to give.
pub open spec fn numbered(mode: Numbering, start: nat, lines: Seq<LineView>) -> Seq<char>
    decreases lines.len(),
{
    if lines.len() == 0 {
        Seq::empty()
    } else {
        numbered(mode, start, lines.drop_last()) + numbered_line(
            mode,
            number_after(mode, start, lines.drop_last()),
            lines.last(),
        )
    }
}

/// Of a source without lines nothing is written and no number is used up,
/// whatever the mode.
pub proof fn lemma_nothing_of_nothing(mode: Numbering, start: nat)
    ensures
        numbered(mode, start, records_of(Seq::<u8>::empty())) == Seq::<char>::empty(),
        number_after(mode, start, records_of(Seq::<u8>::empty())) == start,
{
}

/// With numbering off the lines are written as they stood in the source,
/// and no number is used up.
pub proof fn lemma_off_passes_through(start: nat, lines: Seq<LineView>)
    ensures
        numbered(Numbering::Off, start, lines) == joined_text(lines),
        number_after(Numbering::Off, start, lines) == start,
    decreases lines.len(),
{
    if lines.len() > 0 {
        lemma_off_passes_through(start, lines.drop_last());
    }
}

/// Each line uses up at most one number, and a blank line none unless all
/// lines are numbered.
pub proof fn lemma_number_after_bounds(mode: Numbering, start: nat, lines: Seq<LineView>)
    ensures
        start <= number_after(mode, start, lines) <= start + lines.len(),
        mode == Numbering::All ==> number_after(mode, start, lines) == start + lines.len(),
    decreases lines.len(),
{
    if lines.len() > 0 {
        lemma_number_after_bounds(mode, start, lines.drop_last());
    }
}

/// What a numbering made of a source: the text to write, and how many of
/// the source's lines were not UTF-8.
#[derive(Debug, PartialEq, Eq)]
pub struct Numbered {
    pub text: String,
    pub malformed: usize,
}

/// The state of a numbering: the mode, and the next number to give.
#[derive(Clone, Copy, Debug, PartialEq, Eq)]
pub struct Numberer {
    pub mode: Numbering,
    pub next: u64,
}

impl Numberer {
    /// A numbering that starts at one.
    pub fn new(mode: Numbering) -> (numberer: Numberer)
        ensures
            numberer.mode == mode,
            numberer.next == 1,
    {
        Numberer { mode, next: 1 }
    }

    /// Writes one line, with the next number before it where the line gets
    /// one.
    pub fn number_line(&mut self, record: &LineRecord) -> (text: String)
        requires
            is_numbered(old(self).mode, record@) ==> old(self).next < u64::MAX,
        ensures
            text@ == numbered_line(old(self).mode, old(self).next as nat, record@),
            final(self).mode == old(self).mode,
            final(self).next == old(self).next + if is_numbered(old(self).mode, record@) {
                1nat
            } else {
                0nat
            },
    {
        let gets_number = match self.mode {
            Numbering::Off => false,
            Numbering::All => true,
            Numbering::NonBlank => !record.is_blank(),
        };
        let mut text = String::new();
        if gets_number {
            proof {
                reveal_strlit(" ");
            }
            push_decimal(&mut text, self.next);
            text.append(" ");
            self.next = self.next + 1;
        }
        text.append(record.content());
        text.append(record.ending().as_str());
        text
    }

    /// Writes all lines of one source, and goes on counting where the
    /// source before it ended. A line that is not UTF-8 is counted, and
    /// neither written nor numbered.
    pub fn number_source(&mut self, data: &[u8]) -> (result: Numbered)
        requires
            old(self).mode != Numbering::Off ==> old(self).next + data@.len() <= u64::MAX,
        ensures
            result.text@ == numbered(old(self).mode, old(self).next as nat, records_of(data@)),
            result.malformed == malformed_in(items_of(data@)),
            final(self).mode == old(self).mode,
            final(self).next == number_after(
                old(self).mode,
                old(self).next as nat,
                records_of(data@),
            ),
            final(self).next <= old(self).next + data@.len(),
    {
        let mut reader = LineReader::new(data);
        let mut text = String::new();
        let mut malformed: usize = 0;
        let ghost mut done: Seq<LineItem> = Seq::empty();
        let ghost mode = self.mode;
        let ghost start = self.next as nat;
        proof {
            assert(data@.len() == data.len());
        }
        loop
            invariant
                reader.source() == data@,
                reader.consumed() <= data@.len(),
                data@.len() <= usize::MAX,
                mode != Numbering::Off ==> start + data@.len() <= u64::MAX,
                items_of(data@) == done + reader.pending(),
                self.mode == mode,
                self.next == number_after(mode, start, records_in(done)),
                self.next <= start + reader.consumed(),
                text@ == numbered(mode, start, records_in(done)),
                malformed == malformed_in(done),
                malformed <= reader.consumed(),
            ensures
                reader.pending().len() == 0,
            decreases data@.len() - reader.consumed(),
        {
            let ghost pending = reader.pending();
            let ghost lines = records_in(done);
            match reader.next_line() {
                None => {
                    break ;
                },
                Some(outcome) => {
                    proof {
                        assert(done.push(pending[0]).drop_last() =~= done);
                        done = done.push(pending[0]);
                    }
                    match outcome {
                        Ok(record) => {
                            let line = self.number_line(&record);
                            text.append(line.as_str());
                            proof {
                                assert(lines.push(record@).drop_last() =~= lines);
                            }
                        },
                        Err(_) => {
                            malformed = malformed + 1;
                        },
                    }
                },
            }
        }
        Numbered { text, malformed }
    }
}

/// The next number to give after one source, when `start` was the next
/// before it. A source that could not be opened uses up no number.
pub open spec fn counter_after(mode: Numbering, start: nat, opened: OpenedView) -> nat {
    match opened {
        OpenedView::Stream(s) => number_after(mode, start, records_of(s)),
        OpenedView::Failure(_) => start,
    }
}

/// What is written for the source at `index` when `start` is the next
/// number to give: its lines, and on the error channel one line for each of
/// its lines that is not UTF-8; or, where it could not be opened, the
/// failure alone.
pub open spec fn source_output(
    config: Config,
    index: int,
    mode: Numbering,
    start: nat,
    opened: OpenedView,
) -> OutputView {
    let file = config.files.deep_view()[index];
    match opened {
        OpenedView::Stream(s) => OutputView::text(numbered(mode, start, records_of(s))).with_errors(
            error_line(file, decode_failure()),
            malformed_in(items_of(s)),
        ),
        OpenedView::Failure(reason) => OutputView::empty().with_errors(error_line(file, reason), 1),
    }
}

/// The next number to give after the first `k` sources of a run, which
/// starts at one.
pub open spec fn counter_upto(mode: Numbering, inputs: Seq<OpenedView>, k: nat) -> nat
    decreases k,
{
    if k == 0 {
        1
    } else {
        counter_after(mode, counter_upto(mode, inputs, (k - 1) as nat), inputs[k - 1])
    }
}

/// What is written for the first `k` sources, in order, the numbers
/// running on from one source to the next.
pub open spec fn outputs_upto(config: Config, inputs: Seq<OpenedView>, k: nat) -> OutputView
    decreases k,
{
    if k == 0 {
        OutputView::empty()
    } else {
        let mode = mode_of(config.number_lines, config.number_nonblank_lines);
        outputs_upto(config, inputs, (k - 1) as nat).followed_by(
            source_output(
                config,
                k - 1,
                mode,
                counter_upto(mode, inputs, (k - 1) as nat),
                inputs[k - 1],
            ),
        )
    }
}

/// What a run writes: for each source in order what `source_output` says.
pub open spec fn run_output(config: Config, inputs: Seq<OpenedView>) -> OutputView {
    outputs_upto(config, inputs, inputs.len())
}

/// Works through the source at `index` of those that `config` names,
/// `opened` holding what opening it gave; `numberer` gives the numbers and
/// keeps count for the sources that follow.
pub fn run_source(
    config: &Config,
    index: usize,
    numberer: &mut Numberer,
    opened: &Opened,
) -> (output: Output)
    requires
        index < config.files@.len(),
        old(numberer).mode != Numbering::Off ==> old(numberer).next + stream_len(opened@)
            <= u64::MAX,
    ensures
        output@ == source_output(
            *config,
            index as int,
            old(numberer).mode,
            old(numberer).next as nat,
            opened@,
        ),
        final(numberer).mode == old(numberer).mode,
        final(numberer).next == counter_after(
            old(numberer).mode,
            old(numberer).next as nat,
            opened@,
        ),
        final(numberer).next <= old(numberer).next + stream_len(opened@),
{
    let file = config.files[index].as_str();
    match opened {
        Opened::Stream(bytes) => {
            let numbered = numberer.number_source(bytes.as_slice());
            let mut output = Output::new();
            output.write(numbered.text.as_str());
            output.report_malformed(file, numbered.malformed);
            output
        },
        Opened::Failure(reason) => Output::open_failure(file, reason.as_str()),
    }
}

/// Works through the sources that `config` names, `inputs` holding what
/// opening each of them gave, in the same order. The numbers start at one
/// and run on from one source to the next.
pub fn run(config: &Config, inputs: &Vec<Opened>) -> (output: Output)
    requires
        inputs@.len() == config.files@.len(),
        mode_of(config.number_lines, config.number_nonblank_lines) != Numbering::Off ==> 1
            + streams_len(views_of(inputs@), inputs@.len()) <= u64::MAX,
    ensures
        output@ == run_output(*config, views_of(inputs@)),
{
    let ghost views = views_of(inputs@);
    let mode = config.mode();
    let mut numberer = Numberer::new(mode);
    let mut output = Output::new();
    let mut i: usize = 0;
    while i < inputs.len()
        invariant
            i <= inputs@.len(),
            inputs@.len() == config.files@.len(),
            views == views_of(inputs@),
            mode == mode_of(config.number_lines, config.number_nonblank_lines),
            mode != Numbering::Off ==> 1 + streams_len(views, inputs@.len()) <= u64::MAX,
            numberer.mode == mode,
            numberer.next == counter_upto(mode, views, i as nat),
            numberer.next <= 1 + streams_len(views, i as nat),
            output@ == outputs_upto(*config, views, i as nat),
        decreases inputs@.len() - i,
    {
        proof {
            lemma_streams_len_grows(views, (i + 1) as nat, inputs@.len());
        }
        output.append(run_source(config, i, &mut numberer, &inputs[i]));
        i = i + 1;
    }
    output
}

} // verus!
