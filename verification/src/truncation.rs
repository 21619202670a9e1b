//! The truncation engine: the first lines of a source, or its first bytes.

use crate::driver::{
    decode_failure, error_line, Opened, OpenedView, Output, OutputView, resolve_names,
    resolved_names, views_of,
};
use crate::error::ConfigError;
use crate::reader::{
    bytes_in, items_of, joined_text, lemma_bytes_in_prefix, lemma_items_cover, lemma_items_len,
    lemma_records_len, LineItem, LineReader, malformed_in, records_in,
};
use crate::text::decimal;

use vstd::prelude::*;
use vstd::slice::slice_subrange;
use vstd::string::{StringExecFns, StrSliceExecFns};
use vstd::utf8::{decode_utf8, valid_utf8};

verus! {

/// How much of which sources to show.
#[derive(Debug, PartialEq, Eq)]
pub struct Config {
    pub files: Vec<String>,
    pub lines: usize,
    pub bytes: Option<usize>,
}

/// Where a truncation stops reading.
#[derive(Clone, Copy, Debug, PartialEq, Eq, Structural)]
pub enum ReadLimit {
    /// After this many lines.
    Lines(usize),
    /// After this many bytes.
    Bytes(usize),
}

impl Config {
    /// Where reading a source stops: at the limit in bytes where one is
    /// set, else at the limit in lines.
    pub fn read_limit(&self) -> (limit: ReadLimit)
        ensures
            limit == match self.bytes {
                Some(n) => ReadLimit::Bytes(n),
                None => ReadLimit::Lines(self.lines),
            },
    {
        match self.bytes {
            Some(n) => ReadLimit::Bytes(n),
            None => ReadLimit::Lines(self.lines),
        }
    }
}

/// Checks the limits of a truncation: a limit of zero lines is refused, and
/// so is one of zero bytes.
pub fn get_args(files: Vec<String>, lines: usize, bytes: Option<usize>) -> (result: Result<
    Config,
    ConfigError,
>)
    ensures
        result is Err <==> lines == 0 || bytes == Some(0usize),
        result matches Err(e) ==> e == if lines == 0 {
            ConfigError::LinesNotPositive
        } else {
            ConfigError::BytesNotPositive
        },
        result matches Ok(config) ==> {
            &&& config.files.deep_view() == resolved_names(files.deep_view())
            &&& config.lines == lines
            &&& config.bytes == bytes
        },
{
    if lines == 0 {
        return Err(ConfigError::LinesNotPositive);
    }
    if let Some(n) = bytes {
        if n == 0 {
            return Err(ConfigError::BytesNotPositive);
        }
    }
    Ok(Config { files: resolve_names(files), lines, bytes })
}

/// Whether `c` is one of the ten digits.
pub open spec fn is_digit(c: char) -> bool {
    0x30 <= c as u32 <= 0x39
}

/// The value of the digit `c`.
pub open spec fn digit_value(c: char) -> nat {
    if is_digit(c) {
        (c as u32 - 0x30) as nat
    } else {
        0
    }
}

/// The number that the digits `s` write in base ten.
pub open spec fn digits_value(s: Seq<char>) -> nat
    decreases s.len(),
{
    if s.len() == 0 {
        0
    } else {
        digits_value(s.drop_last()) * 10 + digit_value(s.last())
    }
}

/// Whether `s` holds digits only.
pub open spec fn all_digits(s: Seq<char>) -> bool {
    forall|i: int| 0 <= i < s.len() ==> is_digit(#[trigger] s[i])
}

/// `s` without the plus sign that may lead it.
pub open spec fn unsigned_part(s: Seq<char>) -> Seq<char> {
    if s.len() > 0 && s[0] == '+' {
        s.subrange(1, s.len() as int)
    } else {
        s
    }
}

/// The number that `s` writes: an optional plus sign, then one digit or
/// more. Anything else writes no number.
pub open spec fn parsed_number(s: Seq<char>) -> Option<nat> {
    let digits = unsigned_part(s);
    if digits.len() > 0 && all_digits(digits) {
        Some(digits_value(digits))
    } else {
        None
    }
}

/// The digits read so far never write more than all of them.
pub proof fn lemma_digits_value_prefix(s: Seq<char>, k: int)
    requires
        0 <= k <= s.len(),
    ensures
        digits_value(s.take(k)) <= digits_value(s),
    decreases s.len() - k,
{
    if k < s.len() {
        lemma_digits_value_prefix(s.drop_last(), k);
        assert(s.drop_last().take(k) =~= s.take(k));
    } else {
        assert(s.take(k) =~= s);
    }
}

/// What is written in base ten reads back as the number that was written.
pub proof fn lemma_decimal_reads_back(n: nat)
    ensures
        all_digits(decimal(n)),
        digits_value(decimal(n)) == n,
        parsed_number(decimal(n)) == Some(n),
    decreases n,
{
    let text = decimal(n);
    if n < 10 {
        assert(text.drop_last() =~= Seq::<char>::empty());
        assert(digits_value(text.drop_last()) == 0);
    } else {
        lemma_decimal_reads_back(n / 10);
        assert(text.drop_last() =~= decimal(n / 10));
        assert(text[0] == decimal(n / 10)[0]);
    }
    assert(is_digit(text.last()) && digit_value(text.last()) == n % 10);
    assert(is_digit(text[0]));
}

/// Reads a positive number. What is not a number, is zero or does not fit
/// is handed back as it was given.
pub fn parse_positive_int(val: &str) -> (result: Result<usize, String>)
    ensures
        result matches Ok(n) ==> n > 0 && parsed_number(val@) == Some(n as nat),
        result matches Err(text) ==> text@ == val@,
        result is Ok <==> (parsed_number(val@) matches Some(v) && 0 < v <= usize::MAX),
{
    let len = val.unicode_len();
    let digits = if len > 0 && val.get_char(0) == '+' {
        val.substring_char(1, len)
    } else {
        val
    };
    if digits.unicode_len() == 0 {
        return Err(String::from_str(val));
    }
    let mut acc: usize = 0;
    for c in it: digits.chars()
        invariant
            it.seq() == digits@,
            digits@ == unsigned_part(val@),
            digits@.len() > 0,
            all_digits(digits@.take(it.index())),
            acc == digits_value(digits@.take(it.index())),
    {
        let ghost i = it.index();
        let ghost next = digits@.take(i + 1);
        proof {
            assert(next.drop_last() =~= digits@.take(i));
            lemma_digits_value_prefix(digits@, i + 1);
        }
        let code: u32 = c as u32;
        if code < 0x30 || code > 0x39 {
            return Err(String::from_str(val));
        }
        let digit: usize = (code - 0x30) as usize;
        let shifted = match acc.checked_mul(10) {
            Some(v) => v,
            None => {
                return Err(String::from_str(val));
            },
        };
        acc = match shifted.checked_add(digit) {
            Some(v) => v,
            None => {
                return Err(String::from_str(val));
            },
        };
        assert forall|j: int| 0 <= j < next.len() implies is_digit(#[trigger] next[j]) by {
            if j < i {
            }
        }
    }
    assert(digits@.take(digits@.len() as int) =~= digits@);
    if acc > 0 {
        Ok(acc)
    } else {
        Err(String::from_str(val))
    }
}

/// What a truncation took from a source: the text to show, the number of
/// bytes it read, and how many of the lines it read were not UTF-8.
#[derive(Debug, PartialEq, Eq)]
pub struct Truncated {
    pub text: String,
    pub consumed: usize,
    pub malformed: usize,
}

/// The first `n` items that the source `s` yields, or all of them where it
/// yields fewer.
pub open spec fn leading_items(s: Seq<u8>, n: nat) -> Seq<LineItem> {
    let items = items_of(s);
    if n >= items.len() {
        items
    } else {
        items.take(n as int)
    }
}

/// The first `n` bytes of `s`, or all of it where it is shorter.
pub open spec fn leading_bytes(s: Seq<u8>, n: nat) -> Seq<u8> {
    if n >= s.len() {
        s
    } else {
        s.take(n as int)
    }
}

/// A truncation stays within its limit and within its source, and takes
/// all of a source that is shorter than the limit: of a limit of `n` lines
/// no more than `n` items are read and no more than `n` records shown; of a
/// limit of `n` bytes no more than `n` bytes are read.
pub proof fn lemma_truncation_within_limits(s: Seq<u8>, n: nat)
    ensures
        leading_items(s, n).len() <= n,
        records_in(leading_items(s, n)).len() <= n,
        bytes_in(leading_items(s, n)) <= s.len(),
        n >= items_of(s).len() ==> leading_items(s, n) == items_of(s) && bytes_in(
            leading_items(s, n),
        ) == s.len(),
        leading_bytes(s, n).len() <= n,
        leading_bytes(s, n).len() <= s.len(),
        n >= s.len() ==> leading_bytes(s, n) == s && leading_items(s, n) == items_of(s),
{
    let items = items_of(s);
    lemma_records_len(leading_items(s, n));
    lemma_items_cover(s);
    lemma_items_len(s);
    if n < items.len() {
        lemma_bytes_in_prefix(items, n as int);
    }
}

/// The first `num_lines` lines of a source. No more than `num_lines` lines
/// are read, and nothing is read past the last of them; a line that is not
/// UTF-8 is read and counted, and shows nothing.
pub fn head_lines(data: &[u8], num_lines: usize) -> (head: Truncated)
    ensures
        head.text@ == joined_text(records_in(leading_items(data@, num_lines as nat))),
        head.consumed == bytes_in(leading_items(data@, num_lines as nat)),
        head.malformed == malformed_in(leading_items(data@, num_lines as nat)),
        records_in(leading_items(data@, num_lines as nat)).len() + head.malformed <= num_lines,
        head.consumed <= data@.len(),
        items_of(data@).len() <= num_lines ==> head.consumed == data@.len(),
{
    let mut reader = LineReader::new(data);
    let mut text = String::new();
    let mut malformed: usize = 0;
    let mut taken: usize = 0;
    let mut exhausted = false;
    let ghost mut done: Seq<LineItem> = Seq::empty();
    while taken < num_lines && !exhausted
        invariant
            taken <= num_lines,
            reader.source() == data@,
            reader.consumed() <= data@.len(),
            items_of(data@) == done + reader.pending(),
            done.len() == taken,
            text@ == joined_text(records_in(done)),
            reader.consumed() == bytes_in(done),
            malformed == malformed_in(done),
            records_in(done).len() + malformed <= taken,
            exhausted ==> reader.pending().len() == 0,
        decreases
            num_lines - taken + if exhausted {
                0int
            } else {
                1int
            },
    {
        let ghost pending = reader.pending();
        match reader.next_line() {
            None => {
                exhausted = true;
            },
            Some(outcome) => {
                proof {
                    assert(done.push(pending[0]).drop_last() =~= done);
                    done = done.push(pending[0]);
                }
                match outcome {
                    Ok(record) => {
                        proof {
                            assert(records_in(done).drop_last() =~= records_in(done.drop_last()));
                        }
                        text.append(record.content());
                        text.append(record.ending().as_str());
                    },
                    Err(_) => {
                        malformed = malformed + 1;
                    },
                }
                taken = taken + 1;
            },
        }
    }
    proof {
        if reader.pending().len() > 0 {
            assert(items_of(data@).take(num_lines as int) =~= done);
        }
    }
    Truncated { text, consumed: reader.position(), malformed }
}

/// What the bytes `bytes` show as text when the parts of them that are not
/// UTF-8 are replaced, as `String::from_utf8_lossy` does it.
pub uninterp spec fn lossy_text(bytes: Seq<u8>) -> Seq<char>;

/// `String::from_utf8_lossy`: the text of `bytes`, with a replacement
/// character in place of what is not UTF-8. Of bytes that are well-formed
/// UTF-8 it is the text that they encode.
#[verifier::external_body]
fn decode_lossy(bytes: &[u8]) -> (text: String)
    ensures
        text@ == lossy_text(bytes@),
        valid_utf8(bytes@) ==> text@ == decode_utf8(bytes@),
{
    String::from_utf8_lossy(bytes).into_owned()
}

/// The first `num_bytes` bytes of a source, as text for display. Nothing
/// past them is read.
pub fn head_bytes(data: &[u8], num_bytes: usize) -> (head: Truncated)
    ensures
        head.text@ == lossy_text(leading_bytes(data@, num_bytes as nat)),
        valid_utf8(leading_bytes(data@, num_bytes as nat)) ==> head.text@ == decode_utf8(
            leading_bytes(data@, num_bytes as nat),
        ),
        head.consumed == leading_bytes(data@, num_bytes as nat).len(),
        head.consumed <= num_bytes,
        head.consumed <= data@.len(),
        head.malformed == 0,
{
    let consumed = if num_bytes >= data.len() {
        data.len()
    } else {
        num_bytes
    };
    let prefix = slice_subrange(data, 0, consumed);
    assert(prefix@ =~= leading_bytes(data@, num_bytes as nat));
    Truncated { text: decode_lossy(prefix), consumed, malformed: 0 }
}

/// The banner that stands before the output of the source `file`.
pub open spec fn banner(file: Seq<char>) -> Seq<char> {
    "==> "@ + file + " <==\n"@
}

/// What is written to the sink for one source of which `content` is shown:
/// the banner where several sources are worked through, the content, and an
/// empty line unless the source is the last.
pub open spec fn framed(content: Seq<char>, file: Seq<char>, multiple: bool, last: bool) -> Seq<
    char,
> {
    (if multiple {
        banner(file)
    } else {
        Seq::empty()
    }) + content + (if last {
        Seq::empty()
    } else {
        seq!['\n']
    })
}

/// Puts the banner and the separating line around what is shown of one
/// source.
pub fn frame(content: &str, file: &str, multiple_file_flag: bool, last_file_flag: bool) -> (text:
    String)
    ensures
        text@ == framed(content@, file@, multiple_file_flag, last_file_flag),
{
    let mut text = String::new();
    if multiple_file_flag {
        text.append("==> ");
        text.append(file);
        text.append(" <==\n");
    }
    text.append(content);
    if !last_file_flag {
        proof {
            reveal_strlit("\n");
        }
        text.append("\n");
    }
    text
}

/// What a truncation shows of the source `s`: its first bytes where a
/// limit in bytes is set, else its first lines.
pub open spec fn shown_text(s: Seq<u8>, lines: nat, bytes: Option<usize>) -> Seq<char> {
    match bytes {
        Some(n) => lossy_text(leading_bytes(s, n as nat)),
        None => joined_text(records_in(leading_items(s, lines))),
    }
}

/// How many of the lines that a truncation reads of `s` are not UTF-8. A
/// limit in bytes reads no lines.
pub open spec fn shown_malformed(s: Seq<u8>, lines: nat, bytes: Option<usize>) -> nat {
    match bytes {
        Some(_) => 0,
        None => malformed_in(leading_items(s, lines)),
    }
}

/// What is written for one source that was opened.
pub open spec fn head_output(
    s: Seq<u8>,
    file: Seq<char>,
    lines: nat,
    bytes: Option<usize>,
    multiple: bool,
    last: bool,
) -> OutputView {
    OutputView::text(framed(shown_text(s, lines, bytes), file, multiple, last)).with_errors(
        error_line(file, decode_failure()),
        shown_malformed(s, lines, bytes),
    )
}

/// Truncates one source and frames what is shown of it. A limit in bytes
/// goes before the limit in lines.
pub fn head(
    data: &[u8],
    file: &str,
    lines: usize,
    bytes: Option<usize>,
    multiple_file_flag: bool,
    last_file_flag: bool,
) -> (output: Output)
    ensures
        output@ == head_output(
            data@,
            file@,
            lines as nat,
            bytes,
            multiple_file_flag,
            last_file_flag,
        ),
{
    let shown = match bytes {
        Some(num_bytes) => head_bytes(data, num_bytes),
        None => head_lines(data, lines),
    };
    let mut output = Output::new();
    output.write(frame(shown.text.as_str(), file, multiple_file_flag, last_file_flag).as_str());
    output.report_malformed(file, shown.malformed);
    output
}

/// What is written for the source at `index`: what `head_output` says of a
/// source that was opened, and the failure alone of one that was not. The
/// banner is written where more than one source is named, and the last
/// source named is the one without a separating line after it.
pub open spec fn source_output(config: Config, index: int, opened: OpenedView) -> OutputView {
    let file = config.files.deep_view()[index];
    match opened {
        OpenedView::Stream(s) => head_output(
            s,
            file,
            config.lines as nat,
            config.bytes,
            config.files@.len() > 1,
            index == config.files@.len() - 1,
        ),
        OpenedView::Failure(reason) => OutputView::empty().with_errors(error_line(file, reason), 1),
    }
}

/// What is written for the first `k` sources, in order.
pub open spec fn outputs_upto(config: Config, inputs: Seq<OpenedView>, k: nat) -> OutputView
    decreases k,
{
    if k == 0 {
        OutputView::empty()
    } else {
        outputs_upto(config, inputs, (k - 1) as nat).followed_by(
            source_output(config, k - 1, inputs[k - 1]),
        )
    }
}

/// What a run writes: for each source in order what `source_output` says.
pub open spec fn run_output(config: Config, inputs: Seq<OpenedView>) -> OutputView {
    outputs_upto(config, inputs, inputs.len())
}

/// Works through the source at `index` of those that `config` names,
/// `opened` holding what opening it gave.
pub fn run_source(config: &Config, index: usize, opened: &Opened) -> (output: Output)
    requires
        index < config.files@.len(),
    ensures
        output@ == source_output(*config, index as int, opened@),
{
    let total = config.files.len();
    let file = config.files[index].as_str();
    match opened {
        Opened::Stream(bytes) => head(
            bytes.as_slice(),
            file,
            config.lines,
            config.bytes,
            total > 1,
            index == total - 1,
        ),
        Opened::Failure(reason) => Output::open_failure(file, reason.as_str()),
    }
}

/// Works through the sources that `config` names, `inputs` holding what
/// opening each of them gave, in the same order.
pub fn run(config: &Config, inputs: &Vec<Opened>) -> (output: Output)
    requires
        inputs@.len() == config.files@.len(),
    ensures
        output@ == run_output(*config, views_of(inputs@)),
{
    let ghost views = views_of(inputs@);
    let mut output = Output::new();
    let mut i: usize = 0;
    while i < inputs.len()
        invariant
            i <= inputs@.len(),
            inputs@.len() == config.files@.len(),
            views == views_of(inputs@),
            output@ == outputs_upto(*config, views, i as nat),
        decreases inputs@.len() - i,
    {
        output.append(run_source(config, i, &inputs[i]));
        i = i + 1;
    }
    output
}

} // verus!
