//! The line reader: one source, as bytes, taken apart into line records.
//!
//! A line is the bytes up to and including the next newline, or what is left
//! of the source when no newline follows. Its ending (`"\n"`, `"\r\n"` or
//! nothing) is kept apart from its content, which is decoded as UTF-8.

use vstd::prelude::*;
use vstd::slice::slice_subrange;
use vstd::string::StringSliceAdditionalSpecFns;
use vstd::utf8::{
    decode_utf8, decode_utf8_encode_utf8, encode_utf8, encode_utf8_decode_utf8, valid_utf8,
};

verus! {

/// The newline byte.
pub const LF: u8 = 10;

/// The carriage-return byte.
pub const CR: u8 = 13;

/// How a line ends.
#[derive(Clone, Copy, Debug, PartialEq, Eq, Structural)]
pub enum LineEnding {
    /// The source ended without a newline.
    Absent,
    /// A newline.
    Lf,
    /// A carriage return and a newline.
    CrLf,
}

impl LineEnding {
    /// The number of bytes (and of characters) of the ending.
    pub open spec fn width(self) -> nat {
        match self {
            LineEnding::Absent => 0,
            LineEnding::Lf => 1,
            LineEnding::CrLf => 2,
        }
    }

    /// The ending as text.
    pub open spec fn text(self) -> Seq<char> {
        match self {
            LineEnding::Absent => seq![],
            LineEnding::Lf => seq!['\n'],
            LineEnding::CrLf => seq!['\r', '\n'],
        }
    }

    /// The number of bytes of the ending.
    pub fn len(self) -> (n: usize)
        ensures
            n == self.width(),
    {
        match self {
            LineEnding::Absent => 0,
            LineEnding::Lf => 1,
            LineEnding::CrLf => 2,
        }
    }

    /// The ending as text.
    pub fn as_str(self) -> (s: &'static str)
        ensures
            s@ == self.text(),
    {
        match self {
            LineEnding::Absent => {
                proof {
                    reveal_strlit("");
                }
                ""
            },
            LineEnding::Lf => {
                proof {
                    reveal_strlit("\n");
                }
                "\n"
            },
            LineEnding::CrLf => {
                proof {
                    reveal_strlit("\r\n");
                }
                "\r\n"
            },
        }
    }
}

/// What a line record stands for: its content without the ending, and the
/// ending.
pub struct LineView {
    pub content: Seq<char>,
    pub ending: LineEnding,
}

impl LineView {
    /// The bytes that the line took from its source.
    pub open spec fn byte_len(self) -> nat {
        encode_utf8(self.content).len() + self.ending.width()
    }

    /// The line as it stood in its source, ending included.
    pub open spec fn text(self) -> Seq<char> {
        self.content + self.ending.text()
    }

    /// Whether the line has no content.
    pub open spec fn is_blank(self) -> bool {
        self.content.len() == 0
    }
}

/// What the reader yields for one line: a record, or the length of a line
/// whose content is not UTF-8.
pub enum LineItem {
    Record(LineView),
    Malformed { byte_len: nat },
}

impl LineItem {
    /// The bytes that the line took from its source.
    pub open spec fn byte_len(self) -> nat {
        match self {
            LineItem::Record(line) => line.byte_len(),
            LineItem::Malformed { byte_len } => byte_len,
        }
    }
}

/// One decoded line.
#[derive(Debug, PartialEq, Eq)]
pub struct LineRecord {
    content: String,
    ending: LineEnding,
    byte_len: usize,
}

/// A line whose content could not be decoded; `byte_len` is what it took
/// from its source, ending included.
#[derive(Clone, Copy, Debug, PartialEq, Eq)]
pub struct LineDecodeError {
    pub byte_len: usize,
}

impl View for LineRecord {
    type V = LineView;

    closed spec fn view(&self) -> LineView {
        LineView { content: self.content@, ending: self.ending }
    }
}

impl LineRecord {
    #[verifier::type_invariant]
    spec fn inv(self) -> bool {
        self.byte_len == encode_utf8(self.content@).len() + self.ending.width()
    }

    /// The content of the line, without its ending.
    pub fn content(&self) -> (s: &str)
        ensures
            s@ == self@.content,
    {
        self.content.as_str()
    }

    /// How the line ended.
    pub fn ending(&self) -> (e: LineEnding)
        ensures
            e == self@.ending,
    {
        self.ending
    }

    /// Whether a newline ended the line.
    pub fn had_newline(&self) -> (b: bool)
        ensures
            b == (self@.ending != LineEnding::Absent),
    {
        match self.ending {
            LineEnding::Absent => false,
            _ => true,
        }
    }

    /// The bytes that the line took from its source, ending included.
    pub fn byte_len(&self) -> (n: usize)
        ensures
            n == self@.byte_len(),
    {
        proof {
            use_type_invariant(self);
        }
        self.byte_len
    }

    /// Whether this line and `other` have the same content, whatever their
    /// endings.
    pub fn same_content(&self, other: &LineRecord) -> (b: bool)
        ensures
            b == (self@.content == other@.content),
    {
        self.content == other.content
    }

    /// Whether the line has no content.
    pub fn is_blank(&self) -> (b: bool)
        ensures
            b == self@.is_blank(),
    {
        self.content.as_str().is_empty()
    }
}

impl Clone for LineRecord {
    fn clone(&self) -> (copy: Self)
        ensures
            copy@ == self@,
    {
        proof {
            use_type_invariant(self);
        }
        LineRecord { content: self.content.clone(), ending: self.ending, byte_len: self.byte_len }
    }
}

/// The item that an outcome of the reader stands for.
pub open spec fn item_of(outcome: Result<LineRecord, LineDecodeError>) -> LineItem {
    match outcome {
        Ok(record) => LineItem::Record(record@),
        Err(e) => LineItem::Malformed { byte_len: e.byte_len as nat },
    }
}

/// The ending of a line given as bytes.
pub open spec fn ending_of(raw: Seq<u8>) -> LineEnding {
    if raw.len() >= 2 && raw[raw.len() - 1] == LF && raw[raw.len() - 2] == CR {
        LineEnding::CrLf
    } else if raw.len() >= 1 && raw[raw.len() - 1] == LF {
        LineEnding::Lf
    } else {
        LineEnding::Absent
    }
}

/// The bytes of a line before its ending.
pub open spec fn content_of(raw: Seq<u8>) -> Seq<u8> {
    raw.take(raw.len() - ending_of(raw).width())
}

/// The item that the bytes of one line give: a record when the content is
/// well-formed UTF-8, else the line's length.
pub open spec fn parse_line(raw: Seq<u8>) -> LineItem {
    if valid_utf8(content_of(raw)) {
        LineItem::Record(LineView { content: decode_utf8(content_of(raw)), ending: ending_of(raw) })
    } else {
        LineItem::Malformed { byte_len: raw.len() }
    }
}

/// The length of the first line of `s`: up to and including the first
/// newline, or all of `s` where it holds none.
pub open spec fn first_line_len(s: Seq<u8>) -> nat
    decreases s.len(),
{
    if s.len() == 0 {
        0
    } else if s[0] == LF {
        1
    } else {
        1 + first_line_len(s.drop_first())
    }
}

/// The lines of `s`, each with its ending, in order.
pub open spec fn lines_of(s: Seq<u8>) -> Seq<Seq<u8>>
    decreases s.len(),
{
    if s.len() == 0 {
        Seq::empty()
    } else {
        proof {
            lemma_first_line_bounds(s);
        }
        let n = first_line_len(s) as int;
        seq![s.take(n)] + lines_of(s.skip(n))
    }
}

/// The items that the reader yields for the source `s`, in order.
pub open spec fn items_of(s: Seq<u8>) -> Seq<LineItem> {
    lines_of(s).map_values(|raw: Seq<u8>| parse_line(raw))
}

/// The records among `items`, in order.
pub open spec fn records_in(items: Seq<LineItem>) -> Seq<LineView>
    decreases items.len(),
{
    if items.len() == 0 {
        Seq::empty()
    } else {
        match items.last() {
            LineItem::Record(line) => records_in(items.drop_last()).push(line),
            LineItem::Malformed { .. } => records_in(items.drop_last()),
        }
    }
}

/// The lines that are no records among `items`.
pub open spec fn malformed_in(items: Seq<LineItem>) -> nat
    decreases items.len(),
{
    if items.len() == 0 {
        0
    } else {
        malformed_in(items.drop_last()) + match items.last() {
            LineItem::Record(_) => 0nat,
            LineItem::Malformed { .. } => 1nat,
        }
    }
}

/// The records that the reader yields for the source `s`, in order.
pub open spec fn records_of(s: Seq<u8>) -> Seq<LineView> {
    records_in(items_of(s))
}

/// The bytes that `items` took from their source, all together.
pub open spec fn bytes_in(items: Seq<LineItem>) -> nat
    decreases items.len(),
{
    if items.len() == 0 {
        0
    } else {
        bytes_in(items.drop_last()) + items.last().byte_len()
    }
}

/// The text of `lines`, each with its ending, one after the other.
pub open spec fn joined_text(lines: Seq<LineView>) -> Seq<char>
    decreases lines.len(),
{
    if lines.len() == 0 {
        Seq::empty()
    } else {
        joined_text(lines.drop_last()) + lines.last().text()
    }
}

/// The first line of a source that is not empty is not empty and lies
/// within the source.
pub proof fn lemma_first_line_bounds(s: Seq<u8>)
    ensures
        first_line_len(s) <= s.len(),
        s.len() > 0 ==> first_line_len(s) >= 1,
    decreases s.len(),
{
    if s.len() > 0 && s[0] != LF {
        lemma_first_line_bounds(s.drop_first());
    }
}

/// The first line ends at the first newline: where no newline stands before
/// position `k`, and one stands at `k` unless `k` is the end, the first line
/// reaches just past `k`, or to the end.
pub proof fn lemma_first_line_at(s: Seq<u8>, k: int)
    requires
        0 <= k <= s.len(),
        forall|j: int| 0 <= j < k ==> s[j] != LF,
        k < s.len() ==> s[k] == LF,
    ensures
        first_line_len(s) == if k < s.len() {
            k + 1
        } else {
            k
        },
    decreases k,
{
    if k > 0 {
        lemma_first_line_at(s.drop_first(), k - 1);
    }
}

/// The first line ends in a newline, or at the end of the source.
pub proof fn lemma_first_line_ends(s: Seq<u8>)
    requires
        s.len() > 0,
    ensures
        1 <= first_line_len(s) <= s.len(),
        s[first_line_len(s) - 1] == LF || first_line_len(s) == s.len(),
    decreases s.len(),
{
    lemma_first_line_bounds(s);
    if s[0] != LF && s.len() > 1 {
        lemma_first_line_ends(s.drop_first());
    }
}

/// A line holds a newline at its end only: every byte but the last differs
/// from it.
pub proof fn lemma_first_line_inner(s: Seq<u8>, j: int)
    requires
        0 <= j,
        j + 1 < first_line_len(s),
    ensures
        j < s.len(),
        s[j] != LF,
    decreases s.len(),
{
    if j > 0 {
        lemma_first_line_inner(s.drop_first(), j - 1);
    }
}

/// The lines of a source, put one after the other, are the source again:
/// taking a source apart into lines loses no byte, adds none and moves
/// none.
pub proof fn lemma_lines_rejoin(s: Seq<u8>)
    ensures
        lines_of(s).flatten() == s,
    decreases s.len(),
{
    if s.len() > 0 {
        lemma_first_line_bounds(s);
        let n = first_line_len(s) as int;
        lemma_lines_rejoin(s.skip(n));
        assert(lines_of(s).drop_first() =~= lines_of(s.skip(n)));
        assert(s.take(n) + s.skip(n) =~= s);
    }
}

/// A source that is not empty yields its first line, then what the rest of
/// it yields.
pub proof fn lemma_items_unfold(s: Seq<u8>)
    requires
        s.len() > 0,
    ensures
        1 <= first_line_len(s) <= s.len(),
        items_of(s) == seq![parse_line(s.take(first_line_len(s) as int))] + items_of(
            s.skip(first_line_len(s) as int),
        ),
{
    lemma_first_line_bounds(s);
    let n = first_line_len(s) as int;
}

/// An empty source yields nothing.
pub proof fn lemma_items_empty(s: Seq<u8>)
    requires
        s.len() == 0,
    ensures
        items_of(s) == Seq::<LineItem>::empty(),
{
}

/// Whatever a line decodes to, the item keeps the line's length.
pub proof fn lemma_parse_line_len(raw: Seq<u8>)
    ensures
        parse_line(raw).byte_len() == raw.len(),
{
    if valid_utf8(content_of(raw)) {
        decode_utf8_encode_utf8(content_of(raw));
    }
}

/// The bytes of an item and of the items after it.
pub proof fn lemma_bytes_in_prepend(first: LineItem, rest: Seq<LineItem>)
    ensures
        bytes_in(seq![first] + rest) == first.byte_len() + bytes_in(rest),
    decreases rest.len(),
{
    let all = seq![first] + rest;
    if rest.len() == 0 {
        assert(bytes_in(all.drop_last()) == 0);
    } else {
        lemma_bytes_in_prepend(first, rest.drop_last());
        assert(all.drop_last() =~= seq![first] + rest.drop_last());
    }
}

/// The lines of a source cover it: the items that the reader yields took,
/// all together, every byte of the source, and none twice.
pub proof fn lemma_items_cover(s: Seq<u8>)
    ensures
        bytes_in(items_of(s)) == s.len(),
    decreases s.len(),
{
    if s.len() == 0 {
    } else {
        lemma_items_unfold(s);
        let n = first_line_len(s) as int;
        lemma_parse_line_len(s.take(n));
        lemma_items_cover(s.skip(n));
        lemma_bytes_in_prepend(parse_line(s.take(n)), items_of(s.skip(n)));
    }
}

/// There are no more records among items than items.
pub proof fn lemma_records_len(items: Seq<LineItem>)
    ensures
        records_in(items).len() <= items.len(),
    decreases items.len(),
{
    if items.len() > 0 {
        lemma_records_len(items.drop_last());
    }
}

/// Every line takes a byte at least: a source yields no more items than it
/// has bytes.
pub proof fn lemma_items_len(s: Seq<u8>)
    ensures
        items_of(s).len() <= s.len(),
    decreases s.len(),
{
    if s.len() == 0 {
    } else {
        lemma_items_unfold(s);
        lemma_items_len(s.skip(first_line_len(s) as int));
    }
}

/// The first items of a source took no more bytes than all of them.
pub proof fn lemma_bytes_in_prefix(items: Seq<LineItem>, k: int)
    requires
        0 <= k <= items.len(),
    ensures
        bytes_in(items.take(k)) <= bytes_in(items),
    decreases items.len() - k,
{
    if k < items.len() {
        lemma_bytes_in_prefix(items.drop_last(), k);
        assert(items.drop_last().take(k) =~= items.take(k));
    } else {
        assert(items.take(k) =~= items);
    }
}

/// `std::str::from_utf8`: the text that `bytes` hold, where they are
/// well-formed UTF-8, and nothing where they are not. The text returned
/// encodes to exactly `bytes`.
#[verifier::external_body]
fn utf8_text(bytes: &[u8]) -> (text: Option<&str>)
    ensures
        text is Some <==> valid_utf8(bytes@),
        text matches Some(s) ==> s.spec_bytes() == bytes@,
{
    match std::str::from_utf8(bytes) {
        Ok(s) => Some(s),
        Err(_) => None,
    }
}

/// Decodes one line given with its ending: strips `"\n"` or `"\r\n"` from
/// the end and decodes the rest.
pub fn decode_line(raw: &[u8]) -> (outcome: Result<LineRecord, LineDecodeError>)
    ensures
        item_of(outcome) == parse_line(raw@),
        outcome is Ok <==> valid_utf8(content_of(raw@)),
{
    let n = raw.len();
    let ending = if n >= 2 && raw[n - 1] == LF && raw[n - 2] == CR {
        LineEnding::CrLf
    } else if n >= 1 && raw[n - 1] == LF {
        LineEnding::Lf
    } else {
        LineEnding::Absent
    };
    let body = slice_subrange(raw, 0, n - ending.len());
    match utf8_text(body) {
        Some(s) => {
            proof {
                encode_utf8_decode_utf8(s@);
            }
            Ok(LineRecord { content: s.to_owned(), ending, byte_len: n })
        },
        None => Err(LineDecodeError { byte_len: n }),
    }
}

/// A reader over one source held in memory. It yields the source's lines
/// one by one, from the front, and never goes back.
pub struct LineReader<'a> {
    data: &'a [u8],
    pos: usize,
}

impl<'a> LineReader<'a> {
    #[verifier::type_invariant]
    spec fn inv(self) -> bool {
        self.pos <= self.data@.len()
    }

    /// The source.
    pub closed spec fn source(self) -> Seq<u8> {
        self.data@
    }

    /// The number of bytes read so far.
    pub closed spec fn consumed(self) -> nat {
        self.pos as nat
    }

    /// The bytes not yet read.
    pub open spec fn remaining(self) -> Seq<u8> {
        self.source().skip(self.consumed() as int)
    }

    /// The items not yet yielded: what the bytes not yet read yield.
    pub open spec fn pending(self) -> Seq<LineItem> {
        items_of(self.remaining())
    }

    /// A reader at the start of `data`: all items of `data` are pending.
    pub fn new(data: &'a [u8]) -> (reader: Self)
        ensures
            reader.source() == data@,
            reader.consumed() == 0,
            reader.pending() == items_of(data@),
    {
        assert(data@.skip(0) =~= data@);
        LineReader { data, pos: 0 }
    }

    /// The number of bytes read so far.
    pub fn position(&self) -> (n: usize)
        ensures
            n == self.consumed(),
            n <= self.source().len(),
    {
        proof {
            use_type_invariant(self);
        }
        self.pos
    }

    /// Reads the next line. At the end of the source it yields nothing and
    /// reads nothing; before the end it reads exactly the first of the
    /// remaining lines, not a byte more, and yields what that line decodes
    /// to: the first of the pending items, which is then no longer pending.
    pub fn next_line(&mut self) -> (item: Option<Result<LineRecord, LineDecodeError>>)
        ensures
            final(self).source() == old(self).source(),
            final(self).consumed() <= final(self).source().len(),
            item is None <==> old(self).remaining().len() == 0,
            item is None <==> old(self).pending().len() == 0,
            item is None ==> final(self).consumed() == old(self).consumed(),
            item is None ==> final(self).consumed() == final(self).source().len(),
            item matches Some(outcome) ==> {
                let n = first_line_len(old(self).remaining());
                &&& 1 <= n <= old(self).remaining().len()
                &&& item_of(outcome) == parse_line(old(self).remaining().take(n as int))
                &&& item_of(outcome) == old(self).pending()[0]
                &&& item_of(outcome).byte_len() == n
                &&& final(self).consumed() == old(self).consumed() + n
                &&& final(self).pending() == old(self).pending().drop_first()
            },
    {
        proof {
            use_type_invariant(&*self);
        }
        let data = self.data;
        let start = self.pos;
        let total = data.len();
        if start >= total {
            return None;
        }
        let ghost rest = data@.skip(start as int);
        proof {
            lemma_items_unfold(rest);
            let n = first_line_len(rest) as int;
            lemma_parse_line_len(rest.take(n));
            assert(rest.skip(n) =~= data@.skip(start + n));
        }
        let mut end = start;
        while end < total && data[end] != LF
            invariant
                start <= end <= total,
                total == data@.len(),
                rest == data@.skip(start as int),
                forall|j: int| 0 <= j < end - start ==> rest[j] != LF,
            decreases total - end,
        {
            end = end + 1;
        }
        let stop = if end < total {
            end + 1
        } else {
            end
        };
        proof {
            lemma_first_line_at(rest, end - start);
            assert(data@.subrange(start as int, stop as int) =~= rest.take(stop - start));
        }
        let raw = slice_subrange(data, start, stop);
        self.pos = stop;
        Some(decode_line(raw))
    }
}

/// What each outcome of the reader stands for, in order.
pub open spec fn items_in(outcomes: Seq<Result<LineRecord, LineDecodeError>>) -> Seq<LineItem> {
    outcomes.map_values(|outcome: Result<LineRecord, LineDecodeError>| item_of(outcome))
}

/// Reads a source to its end and hands back, in order, all that the reader
/// yields for it.
pub fn read_lines(data: &[u8]) -> (outcomes: Vec<Result<LineRecord, LineDecodeError>>)
    ensures
        items_in(outcomes@) == items_of(data@),
{
    let mut reader = LineReader::new(data);
    let mut outcomes: Vec<Result<LineRecord, LineDecodeError>> = Vec::new();
    loop
        invariant
            reader.source() == data@,
            reader.consumed() <= data@.len(),
            items_of(data@) == items_in(outcomes@) + reader.pending(),
        ensures
            reader.pending().len() == 0,
        decreases data@.len() - reader.consumed(),
    {
        match reader.next_line() {
            None => {
                break ;
            },
            Some(outcome) => {
                outcomes.push(outcome);
            },
        }
    }
    outcomes
}

} // verus!
