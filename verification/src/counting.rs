//! The counting engine: lines, words, bytes and characters of a source, and
//! the summary lines that show them.

use crate::driver::{
    decode_failure, error_line, is_stdin, lemma_streams_len_grows, Opened, OpenedView, Output,
    OutputView, resolve_names, resolved_names, stdin_name, stream_len, streams_len, views_of,
};
use crate::error::ConfigError;
use crate::reader::{
    items_of, LineEnding, LineItem, LineReader, LineView, malformed_in, records_in, records_of,
};
use crate::source_text::lemma_tally_of_text;
use crate::text::{
    count_words, lemma_chars_le_bytes, lemma_word_count_bound, lemma_word_count_push_space,
    push_right_aligned, right_aligned, word_count,
};

use vstd::prelude::*;
use vstd::string::{StringExecFns, StrSliceExecFns};
use vstd::utf8::{decode_utf8, valid_utf8};

verus! {

/// The width of the column in which a count is shown.
pub const FIELD_WIDTH: usize = 8;

/// Which counts to show, for which sources.
#[derive(Debug, PartialEq, Eq)]
pub struct Config {
    pub files: Vec<String>,
    pub lines: bool,
    pub words: bool,
    pub bytes: bool,
    pub chars: bool,
}

/// Checks a selection of counts and settles what is shown. With nothing
/// selected, lines, words and bytes are shown. Bytes and characters
/// together are refused.
pub fn get_args(files: Vec<String>, lines: bool, words: bool, bytes: bool, chars: bool) -> (result:
    Result<Config, ConfigError>)
    ensures
        result is Err <==> bytes && chars,
        result matches Err(e) ==> e == ConfigError::BytesWithChars,
        result matches Ok(config) ==> {
            let none = !lines && !words && !bytes && !chars;
            &&& config.files.deep_view() == resolved_names(files.deep_view())
            &&& config.lines == (lines || none)
            &&& config.words == (words || none)
            &&& config.bytes == (bytes || none)
            &&& config.chars == chars
        },
{
    let none = !lines && !words && !bytes && !chars;
    if bytes && chars {
        return Err(ConfigError::BytesWithChars);
    }
    Ok(
        Config {
            files: resolve_names(files),
            lines: lines || none,
            words: words || none,
            bytes: bytes || none,
            chars,
        },
    )
}

/// The four counts of one source, or of several added up.
#[derive(Clone, Copy, Debug, PartialEq, Eq)]
pub struct FileInfo {
    pub num_lines: usize,
    pub num_words: usize,
    pub num_bytes: usize,
    pub num_chars: usize,
}

/// Four counts without bounds.
pub struct Tally {
    pub lines: nat,
    pub words: nat,
    pub bytes: nat,
    pub chars: nat,
}

impl Tally {
    /// All counts at zero.
    pub open spec fn zero() -> Tally {
        Tally { lines: 0, words: 0, bytes: 0, chars: 0 }
    }

    /// The sum of two tallies, count by count.
    pub open spec fn plus(self, other: Tally) -> Tally {
        Tally {
            lines: self.lines + other.lines,
            words: self.words + other.words,
            bytes: self.bytes + other.bytes,
            chars: self.chars + other.chars,
        }
    }
}

impl FileInfo {
    /// No count is above the count of bytes: it takes a byte to make a
    /// line, a word or a character.
    pub open spec fn within_bytes(self) -> bool {
        &&& self.num_lines <= self.num_bytes
        &&& self.num_words <= self.num_bytes
        &&& self.num_chars <= self.num_bytes
    }
}

impl View for FileInfo {
    type V = Tally;

    open spec fn view(&self) -> Tally {
        Tally {
            lines: self.num_lines as nat,
            words: self.num_words as nat,
            bytes: self.num_bytes as nat,
            chars: self.num_chars as nat,
        }
    }
}

/// The words of all of `lines` together.
pub open spec fn total_words(lines: Seq<LineView>) -> nat
    decreases lines.len(),
{
    if lines.len() == 0 {
        0
    } else {
        total_words(lines.drop_last()) + word_count(lines.last().text())
    }
}

/// The characters of all of `lines` together, endings included.
pub open spec fn total_chars(lines: Seq<LineView>) -> nat
    decreases lines.len(),
{
    if lines.len() == 0 {
        0
    } else {
        total_chars(lines.drop_last()) + lines.last().text().len()
    }
}

/// The counts of the source `s`: its records, their words, all its bytes,
/// and the characters of its records.
pub open spec fn tally_of(s: Seq<u8>) -> Tally {
    Tally {
        lines: records_of(s).len(),
        words: total_words(records_of(s)),
        bytes: s.len(),
        chars: total_chars(records_of(s)),
    }
}

/// The ending of a line adds no word to it.
pub proof fn lemma_ending_adds_no_word(line: LineView)
    ensures
        word_count(line.text()) == word_count(line.content),
{
    let c = line.content;
    match line.ending {
        LineEnding::Absent => {},
        LineEnding::Lf => {
            lemma_word_count_push_space(c, '\n');
            assert(line.text() =~= c.push('\n'));
        },
        LineEnding::CrLf => {
            lemma_word_count_push_space(c, '\r');
            lemma_word_count_push_space(c.push('\r'), '\n');
            assert(line.text() =~= c.push('\r').push('\n'));
        },
    }
}

/// Counts one source, and the lines of it that are not UTF-8. Such a line
/// adds to the bytes, and to nothing else.
pub fn tally(data: &[u8]) -> (result: (FileInfo, usize))
    ensures
        result.0@ == tally_of(data@),
        result.1 == malformed_in(items_of(data@)),
        result.0.within_bytes(),
{
    let mut reader = LineReader::new(data);
    let mut info = FileInfo { num_lines: 0, num_words: 0, num_bytes: 0, num_chars: 0 };
    let mut malformed: usize = 0;
    let ghost mut done: Seq<LineItem> = Seq::empty();
    loop
        invariant
            reader.source() == data@,
            reader.consumed() <= data@.len(),
            items_of(data@) == done + reader.pending(),
            info.num_lines == records_in(done).len(),
            info.num_words == total_words(records_in(done)),
            info.num_chars == total_chars(records_in(done)),
            info.num_bytes == reader.consumed(),
            malformed == malformed_in(done),
            info.num_lines + malformed <= info.num_bytes,
            info.num_words <= info.num_bytes,
            info.num_chars <= info.num_bytes,
        ensures
            reader.pending().len() == 0,
            reader.consumed() == data@.len(),
        decreases data@.len() - reader.consumed(),
    {
        let ghost pending = reader.pending();
        match reader.next_line() {
            None => {
                break ;
            },
            Some(outcome) => {
                proof {
                    assert(done.push(pending[0]).drop_last() =~= done);
                    done = done.push(pending[0]);
                }
                let pos = reader.position();
                match outcome {
                    Ok(record) => {
                        proof {
                            lemma_ending_adds_no_word(record@);
                            lemma_word_count_bound(record@.content);
                            lemma_chars_le_bytes(record@.content);
                            assert(records_in(done).drop_last() =~= records_in(done.drop_last()));
                        }
                        let words = count_words(record.content());
                        let chars = record.content().unicode_len() + record.ending().len();
                        info.num_lines = info.num_lines + 1;
                        info.num_words = info.num_words + words;
                        info.num_chars = info.num_chars + chars;
                    },
                    Err(_) => {
                        malformed = malformed + 1;
                    },
                }
                info.num_bytes = pos;
            },
        }
    }
    (info, malformed)
}

/// Counts one source: its records, their words, all its bytes, and the
/// characters of its records. Of a source that is well-formed UTF-8 these
/// are all its lines, and the words and the characters of its text.
pub fn count(data: &[u8]) -> (info: FileInfo)
    ensures
        info@ == tally_of(data@),
        info.num_lines == records_of(data@).len(),
        info.num_bytes == data@.len(),
        valid_utf8(data@) ==> {
            &&& info.num_lines == items_of(data@).len()
            &&& info.num_words == word_count(decode_utf8(data@))
            &&& info.num_chars == decode_utf8(data@).len()
        },
{
    proof {
        if valid_utf8(data@) {
            lemma_tally_of_text(data@);
        }
    }
    tally(data).0
}

/// One count as it is shown: right-aligned in its column, or nothing where
/// it is not shown.
pub open spec fn field_text(value: nat, show: bool) -> Seq<char> {
    if show {
        right_aligned(value, FIELD_WIDTH as nat)
    } else {
        Seq::empty()
    }
}

/// The counts that `config` shows, in the order lines, words, bytes,
/// characters.
pub open spec fn fields_text(tally: Tally, config: Config) -> Seq<char> {
    field_text(tally.lines, config.lines) + field_text(tally.words, config.words) + field_text(
        tally.bytes,
        config.bytes,
    ) + field_text(tally.chars, config.chars)
}

/// What follows the counts of the source `name`: a space and the name, or
/// nothing for standard input.
pub open spec fn name_suffix(name: Seq<char>) -> Seq<char> {
    if name == stdin_name() {
        Seq::empty()
    } else {
        seq![' '] + name
    }
}

/// The summary line of the source `name`.
pub open spec fn summary_line(tally: Tally, config: Config, name: Seq<char>) -> Seq<char> {
    fields_text(tally, config) + name_suffix(name) + seq!['\n']
}

/// The line that sums up several sources.
pub open spec fn total_line(tally: Tally, config: Config) -> Seq<char> {
    fields_text(tally, config) + " total\n"@
}

/// Shows one count: right-aligned in its column, or nothing where `show` is
/// off.
pub fn format_field(value: usize, show: bool) -> (text: String)
    ensures
        text@ == field_text(value as nat, show),
{
    let mut text = String::new();
    if show {
        push_right_aligned(&mut text, value as u64, FIELD_WIDTH);
    }
    text
}

fn format_fields(info: &FileInfo, config: &Config) -> (text: String)
    ensures
        text@ == fields_text(info@, *config),
{
    let mut text = format_field(info.num_lines, config.lines);
    text.append(format_field(info.num_words, config.words).as_str());
    text.append(format_field(info.num_bytes, config.bytes).as_str());
    text.append(format_field(info.num_chars, config.chars).as_str());
    text
}

/// Builds the summary line of the source `name`.
pub fn format_summary(info: &FileInfo, config: &Config, name: &str) -> (line: String)
    ensures
        line@ == summary_line(info@, *config, name@),
{
    proof {
        reveal_strlit(" ");
        reveal_strlit("\n");
    }
    let mut line = format_fields(info, config);
    if !is_stdin(name) {
        line.append(" ");
        line.append(name);
    }
    line.append("\n");
    line
}

/// Builds the line that sums up several sources.
pub fn format_total(totals: &FileInfo, config: &Config) -> (line: String)
    ensures
        line@ == total_line(totals@, *config),
{
    let mut line = format_fields(totals, config);
    line.append(" total\n");
    line
}

/// What one source adds to the totals: its counts, or nothing where it
/// could not be opened.
pub open spec fn source_tally(opened: OpenedView) -> Tally {
    match opened {
        OpenedView::Stream(s) => tally_of(s),
        OpenedView::Failure(_) => Tally::zero(),
    }
}

/// What is written for the source at `index`: its summary line, and on the
/// error channel one line for each of its lines that is not UTF-8; or,
/// where it could not be opened, the failure alone.
pub open spec fn source_output(config: Config, index: int, opened: OpenedView) -> OutputView {
    let name = config.files.deep_view()[index];
    match opened {
        OpenedView::Stream(s) => OutputView::text(
            summary_line(tally_of(s), config, name),
        ).with_errors(error_line(name, decode_failure()), malformed_in(items_of(s))),
        OpenedView::Failure(reason) => OutputView::empty().with_errors(
            error_line(name, reason),
            1,
        ),
    }
}

/// The counts of the first `k` of `inputs`, added up.
pub open spec fn totals_upto(inputs: Seq<OpenedView>, k: nat) -> Tally
    decreases k,
{
    if k == 0 {
        Tally::zero()
    } else {
        totals_upto(inputs, (k - 1) as nat).plus(source_tally(inputs[k - 1]))
    }
}

/// What is written for the first `k` sources, in order.
pub open spec fn outputs_upto(config: Config, inputs: Seq<OpenedView>, k: nat) -> OutputView
    decreases k,
{
    if k == 0 {
        OutputView::empty()
    } else {
        outputs_upto(config, inputs, (k - 1) as nat).followed_by(
            source_output(config, k - 1, inputs[k - 1]),
        )
    }
}

/// What is written after the last source: the line of totals where more
/// than one source is named, else nothing.
pub open spec fn closing_output(config: Config, totals: Tally) -> OutputView {
    if config.files@.len() > 1 {
        OutputView::text(total_line(totals, config))
    } else {
        OutputView::empty()
    }
}

/// What a run writes: for each source in order what `source_output` says,
/// and after them what `closing_output` says of the counts added up.
pub open spec fn run_output(config: Config, inputs: Seq<OpenedView>) -> OutputView {
    outputs_upto(config, inputs, inputs.len()).followed_by(
        closing_output(config, totals_upto(inputs, inputs.len())),
    )
}

/// The bytes counted over the first `k` sources are the bytes of those
/// that were opened.
pub proof fn lemma_totals_bytes(inputs: Seq<OpenedView>, k: nat)
    ensures
        totals_upto(inputs, k).bytes == streams_len(inputs, k),
    decreases k,
{
    if k > 0 {
        lemma_totals_bytes(inputs, (k - 1) as nat);
    }
}

/// Works through the source at `index` of those that `config` names,
/// `opened` holding what opening it gave: counts it, adds its counts to
/// `totals`, and hands back what is to be written for it.
pub fn run_source(config: &Config, index: usize, opened: &Opened, totals: &mut FileInfo) -> (output:
    Output)
    requires
        index < config.files@.len(),
        old(totals).within_bytes(),
        old(totals).num_bytes + stream_len(opened@) <= usize::MAX,
    ensures
        output@ == source_output(*config, index as int, opened@),
        final(totals)@ == old(totals)@.plus(source_tally(opened@)),
        final(totals).within_bytes(),
{
    let name = config.files[index].as_str();
    match opened {
        Opened::Failure(reason) => Output::open_failure(name, reason.as_str()),
        Opened::Stream(bytes) => {
            let (info, malformed) = tally(bytes.as_slice());
            let mut output = Output::new();
            output.write(format_summary(&info, config, name).as_str());
            output.report_malformed(name, malformed);
            totals.num_lines = totals.num_lines + info.num_lines;
            totals.num_words = totals.num_words + info.num_words;
            totals.num_bytes = totals.num_bytes + info.num_bytes;
            totals.num_chars = totals.num_chars + info.num_chars;
            output
        },
    }
}

/// Ends a run: hands back the line of totals where more than one source is
/// named.
pub fn run_total(config: &Config, totals: &FileInfo) -> (output: Output)
    ensures
        output@ == closing_output(*config, totals@),
{
    let mut output = Output::new();
    if config.files.len() > 1 {
        output.write(format_total(totals, config).as_str());
    }
    output
}

/// Works through the sources that `config` names, `inputs` holding what
/// opening each of them gave, in the same order.
pub fn run(config: &Config, inputs: &Vec<Opened>) -> (output: Output)
    requires
        inputs@.len() == config.files@.len(),
        streams_len(views_of(inputs@), inputs@.len()) <= usize::MAX,
    ensures
        output@ == run_output(*config, views_of(inputs@)),
{
    let ghost views = views_of(inputs@);
    let mut output = Output::new();
    let mut totals = FileInfo { num_lines: 0, num_words: 0, num_bytes: 0, num_chars: 0 };
    let mut i: usize = 0;
    while i < inputs.len()
        invariant
            i <= inputs@.len(),
            inputs@.len() == config.files@.len(),
            views == views_of(inputs@),
            streams_len(views, inputs@.len()) <= usize::MAX,
            totals@ == totals_upto(views, i as nat),
            totals.within_bytes(),
            output@ == outputs_upto(*config, views, i as nat),
        decreases inputs@.len() - i,
    {
        proof {
            lemma_streams_len_grows(views, (i + 1) as nat, inputs@.len());
            lemma_totals_bytes(views, i as nat);
        }
        output.append(run_source(config, i, &inputs[i], &mut totals));
        i = i + 1;
    }
    output.append(run_total(config, &totals));
    output
}

} // verus!
