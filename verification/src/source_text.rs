//! A source as one text: what the lines of a source that is well-formed
//! UTF-8 say of the text that the source encodes.

use crate::counting::{tally_of, total_chars, total_words};
use crate::numbering::{lemma_off_passes_through, numbered, Numbering};
use crate::reader::{
    content_of, ending_of, first_line_len, items_of, joined_text, lemma_first_line_ends,
    lemma_items_unfold, LF, LineEnding, LineItem, LineView, malformed_in, parse_line, records_in,
    records_of,
};
use crate::text::{is_whitespace, word_count};
use crate::truncation::leading_items;

use vstd::prelude::*;
use vstd::utf8::{
    decode_utf8, decode_utf8_encode_utf8, decode_utf8_split, encode_utf8,
    is_char_boundary_iff_not_is_continuation_byte, pop_first_scalar, valid_utf8, valid_utf8_concat,
    valid_utf8_split,
};

verus! {

/// A byte below 128 stands for itself.
proof fn lemma_ascii_bits(b: u8)
    by (bit_vector)
    requires
        b < 0x80,
    ensures
        b & 0x7F == b,
{
}

/// A byte below 128 splits well-formed UTF-8 into well-formed parts: what
/// stands before it and what stands after it are well-formed, and the text
/// is the text before it, the character that it is, and the text after it.
pub proof fn lemma_split_at_ascii(s: Seq<u8>, i: int)
    requires
        valid_utf8(s),
        0 <= i < s.len(),
        s[i] < 0x80,
    ensures
        valid_utf8(s.take(i)),
        valid_utf8(s.skip(i + 1)),
        decode_utf8(s) == decode_utf8(s.take(i)).push(s[i] as char) + decode_utf8(s.skip(i + 1)),
{
    is_char_boundary_iff_not_is_continuation_byte(s, i);
    valid_utf8_split(s, i);
    decode_utf8_split(s, i);
    let tail = s.subrange(i, s.len() as int);
    assert(pop_first_scalar(tail) =~= s.skip(i + 1));
    lemma_ascii_bits(s[i]);
}

/// One byte below 128 is well-formed UTF-8.
pub proof fn lemma_ascii_byte_valid(b: u8)
    requires
        b < 0x80,
    ensures
        valid_utf8(seq![b]),
{
    assert(valid_utf8(pop_first_scalar(seq![b])));
}

/// A line that is well-formed UTF-8 decodes to a record, and the text of
/// the record, ending included, is the text of the line.
pub proof fn lemma_line_text(raw: Seq<u8>)
    requires
        valid_utf8(raw),
    ensures
        parse_line(raw) matches LineItem::Record(line) && line.text() == decode_utf8(raw),
{
    let n = raw.len() as int;
    match ending_of(raw) {
        LineEnding::Absent => {
            assert(content_of(raw) =~= raw);
        },
        LineEnding::Lf => {
            lemma_split_at_ascii(raw, n - 1);
        },
        LineEnding::CrLf => {
            lemma_split_at_ascii(raw, n - 1);
            let body = raw.take(n - 1);
            lemma_split_at_ascii(body, n - 2);
            assert(body.take(n - 2) =~= raw.take(n - 2));
        },
    }
}

/// The first line of well-formed UTF-8 is well-formed, and so is what
/// follows it; the text is the text of the line and then the text of what
/// follows.
pub proof fn lemma_first_line_valid(s: Seq<u8>)
    requires
        valid_utf8(s),
        s.len() > 0,
    ensures
        valid_utf8(s.take(first_line_len(s) as int)),
        valid_utf8(s.skip(first_line_len(s) as int)),
        decode_utf8(s) == decode_utf8(s.take(first_line_len(s) as int)) + decode_utf8(
            s.skip(first_line_len(s) as int),
        ),
{
    lemma_first_line_ends(s);
    let n = first_line_len(s) as int;
    if s[n - 1] == LF {
        lemma_split_at_ascii(s, n - 1);
        let line = s.take(n);
        lemma_ascii_byte_valid(LF);
        valid_utf8_concat(s.take(n - 1), seq![LF]);
        assert(line =~= s.take(n - 1) + seq![LF]);
        lemma_split_at_ascii(line, n - 1);
        assert(line.take(n - 1) =~= s.take(n - 1));
    } else {
        assert(s.take(n) =~= s);
    }
}

/// The records among items and the items after them.
pub proof fn lemma_records_concat(a: Seq<LineItem>, b: Seq<LineItem>)
    ensures
        records_in(a + b) == records_in(a) + records_in(b),
        malformed_in(a + b) == malformed_in(a) + malformed_in(b),
    decreases b.len(),
{
    if b.len() > 0 {
        lemma_records_concat(a, b.drop_last());
        assert((a + b).drop_last() =~= a + b.drop_last());
    }
}

/// The text, the words and the characters of lines and of the lines after
/// them.
pub proof fn lemma_lines_concat(a: Seq<LineView>, b: Seq<LineView>)
    ensures
        joined_text(a + b) == joined_text(a) + joined_text(b),
        total_words(a + b) == total_words(a) + total_words(b),
        total_chars(a + b) == total_chars(a) + total_chars(b),
    decreases b.len(),
{
    if b.len() > 0 {
        lemma_lines_concat(a, b.drop_last());
        assert((a + b).drop_last() =~= a + b.drop_last());
    }
}

/// The characters of lines are the characters of their text.
pub proof fn lemma_total_chars(lines: Seq<LineView>)
    ensures
        total_chars(lines) == joined_text(lines).len(),
    decreases lines.len(),
{
    if lines.len() > 0 {
        lemma_total_chars(lines.drop_last());
    }
}

/// After whitespace the words of a text are counted afresh: a text that is
/// empty or ends in whitespace, with a second text after it, has the words
/// of both.
pub proof fn lemma_word_count_concat(a: Seq<char>, b: Seq<char>)
    requires
        a.len() == 0 || is_whitespace(a.last()),
    ensures
        word_count(a + b) == word_count(a) + word_count(b),
    decreases b.len(),
{
    if b.len() > 0 {
        lemma_word_count_concat(a, b.drop_last());
        assert((a + b).drop_last() =~= a + b.drop_last());
    }
}

/// The lines of a source that is well-formed UTF-8 are all records, and
/// their text, one after the other, is the text of the source: reading by
/// lines loses nothing and adds nothing. Their words are the words of the
/// text, and their characters its characters.
pub proof fn lemma_valid_source(s: Seq<u8>)
    requires
        valid_utf8(s),
    ensures
        malformed_in(items_of(s)) == 0,
        records_of(s).len() == items_of(s).len(),
        joined_text(records_of(s)) == decode_utf8(s),
        total_chars(records_of(s)) == decode_utf8(s).len(),
        total_words(records_of(s)) == word_count(decode_utf8(s)),
    decreases s.len(),
{
    if s.len() > 0 {
        lemma_items_unfold(s);
        lemma_first_line_valid(s);
        lemma_first_line_ends(s);
        let n = first_line_len(s) as int;
        let raw = s.take(n);
        let rest = s.skip(n);
        lemma_line_text(raw);
        lemma_valid_source(rest);
        let first = seq![parse_line(raw)];
        let line = parse_line(raw)->Record_0;
        lemma_records_concat(first, items_of(rest));
        assert(records_in(first.drop_last()) =~= Seq::<LineView>::empty());
        assert(malformed_in(first.drop_last()) == 0);
        lemma_lines_concat(seq![line], records_of(rest));
        assert(joined_text(seq![line].drop_last()) =~= Seq::<char>::empty());
        assert(total_words(seq![line].drop_last()) == 0);
        lemma_total_chars(records_of(s));
        if rest.len() > 0 {
            lemma_word_count_concat(line.text(), decode_utf8(rest));
        }
    }
}

/// Counting a source that is well-formed UTF-8 counts its text: every line
/// is counted, the characters are those of the text, and the words are the
/// runs of characters between the whitespace of the text.
pub proof fn lemma_tally_of_text(s: Seq<u8>)
    requires
        valid_utf8(s),
    ensures
        tally_of(s).lines == items_of(s).len(),
        tally_of(s).chars == decode_utf8(s).len(),
        tally_of(s).words == word_count(decode_utf8(s)),
        tally_of(s).bytes == s.len(),
{
    lemma_valid_source(s);
}

/// With numbering off, what is written of a source that is well-formed
/// UTF-8 is the text of the source, unchanged: written out as UTF-8 it is
/// the source again, byte for byte.
pub proof fn lemma_plain_copy(s: Seq<u8>, start: nat)
    requires
        valid_utf8(s),
    ensures
        numbered(Numbering::Off, start, records_of(s)) == decode_utf8(s),
        encode_utf8(numbered(Numbering::Off, start, records_of(s))) == s,
{
    lemma_valid_source(s);
    lemma_off_passes_through(start, records_of(s));
    decode_utf8_encode_utf8(s);
}

/// What a truncation by lines shows is the beginning of what all lines of
/// the source show: the lines shown are shown as they are, in order, from
/// the first on.
pub proof fn lemma_truncation_is_prefix(s: Seq<u8>, n: nat)
    ensures
        joined_text(records_in(leading_items(s, n))).is_prefix_of(joined_text(records_of(s))),
{
    let items = items_of(s);
    let shown = leading_items(s, n);
    let rest = if n >= items.len() {
        Seq::<LineItem>::empty()
    } else {
        items.skip(n as int)
    };
    assert(items =~= shown + rest);
    lemma_records_concat(shown, rest);
    lemma_lines_concat(records_in(shown), records_in(rest));
}

/// A source that is well-formed UTF-8 and has no more lines than the limit
/// is shown whole: what is shown is its text.
pub proof fn lemma_short_source_whole(s: Seq<u8>, n: nat)
    requires
        valid_utf8(s),
        n >= items_of(s).len(),
    ensures
        joined_text(records_in(leading_items(s, n))) == decode_utf8(s),
{
    lemma_valid_source(s);
}

} // verus!
