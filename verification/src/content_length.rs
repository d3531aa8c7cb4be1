//! The declared length of a message body, read from the header block.

use vstd::prelude::*;
use vstd::slice::slice_subrange;
use crate::search::{
    first_match_from, matches_at, offset_of, piece_spans, spans_of, spans_within, split, split_on,
};
use crate::text::{as_text, lower_seq, to_lower, utf8, CR, LF};

verus! {

/// The key of the length field, with its colon.
pub open spec fn length_key() -> Seq<u8> {
    utf8("content-length:"@)
}

/// `needle` occurs in `hay` at `i` when ASCII case is ignored.
pub open spec fn matches_ignoring_case_at(hay: Seq<u8>, needle: Seq<u8>, i: int) -> bool {
    matches_at(lower_seq(hay), lower_seq(needle), i)
}

/// The first offset at which `needle` occurs in `hay` when ASCII case is
/// ignored, if any.
pub open spec fn first_match_ignoring_case(hay: Seq<u8>, needle: Seq<u8>) -> Option<int> {
    first_match_from(lower_seq(hay), lower_seq(needle), 0)
}

/// Does `needle` occur in `hay` at `i` when ASCII case is ignored?
pub fn occurs_ignoring_case_at(hay: &[u8], needle: &[u8], i: usize) -> (r: bool)
    ensures
        r == matches_ignoring_case_at(hay@, needle@, i as int),
{
    if i > hay.len() || needle.len() > hay.len() - i {
        return false;
    }
    let n: usize = needle.len();
    let ghost h = lower_seq(hay@);
    let ghost d = lower_seq(needle@);
    let mut j: usize = 0;
    while j < n
        invariant
            n == needle.len(),
            i + n <= hay.len(),
            j <= n,
            h == lower_seq(hay@),
            d == lower_seq(needle@),
            forall|k: int| 0 <= k < j ==> h[i + k] == d[k],
        decreases n - j,
    {
        if to_lower(hay[i + j]) != to_lower(needle[j]) {
            assert(h.subrange(i as int, i + n)[j as int] == h[i + j]);
            return false;
        }
        j += 1;
    }
    assert(h.subrange(i as int, i + n) =~= d);
    true
}

/// Finds the first occurrence of `needle` in `haystack`, ignoring ASCII
/// case.
pub fn find_pattern_case_insensitive(haystack: &[u8], needle: &[u8]) -> (r: Option<usize>)
    ensures
        offset_of(r) == first_match_ignoring_case(haystack@, needle@),
        r matches Some(p) ==> p + needle@.len() <= haystack@.len(),
{
    if needle.len() > haystack.len() {
        return None;
    }
    let ghost h = lower_seq(haystack@);
    let ghost d = lower_seq(needle@);
    let last: usize = haystack.len() - needle.len();
    let mut i: usize = 0;
    loop
        invariant
            last + needle.len() == haystack.len(),
            i <= last,
            h == lower_seq(haystack@),
            d == lower_seq(needle@),
            first_match_from(h, d, 0) == first_match_from(h, d, i as int),
        decreases last - i,
    {
        if occurs_ignoring_case_at(haystack, needle, i) {
            return Some(i);
        }
        if i == last {
            assert(first_match_from(h, d, i + 1) is None);
            return None;
        }
        i += 1;
    }
}

/// A blank: space or tab.
pub open spec fn is_blank(b: u8) -> bool {
    b == ' ' as u8 || b == '\t' as u8
}

/// A decimal digit.
pub open spec fn is_digit(b: u8) -> bool {
    '0' as u8 <= b <= '9' as u8
}

/// The first offset at or after `from` that holds no blank.
pub open spec fn skip_blanks(s: Seq<u8>, from: int) -> int
    decreases s.len() - from,
{
    if 0 <= from < s.len() && is_blank(s[from]) {
        skip_blanks(s, from + 1)
    } else {
        from
    }
}

/// The first offset at or after `from` that holds no digit.
pub open spec fn skip_digits(s: Seq<u8>, from: int) -> int
    decreases s.len() - from,
{
    if 0 <= from < s.len() && is_digit(s[from]) {
        skip_digits(s, from + 1)
    } else {
        from
    }
}

/// The number that a run of digits writes.
pub open spec fn digits_value(s: Seq<u8>) -> nat
    decreases s.len(),
{
    if s.len() == 0 {
        0
    } else {
        digits_value(s.drop_last()) * 10 + (s.last() - '0' as u8) as nat
    }
}

/// The number that a non-empty run of digits writes, where a `usize` can
/// hold it.
pub open spec fn number_of(digits: Seq<u8>) -> Option<usize> {
    if digits.len() > 0 && digits_value(digits) <= usize::MAX {
        Some(digits_value(digits) as usize)
    } else {
        None
    }
}

/// The length that a header block declares: behind the first
/// `content-length:` in it, in any ASCII case, and behind blanks, the run of
/// digits, where there is one and a `usize` can hold its number.
pub open spec fn declared_length(headers: Seq<u8>) -> Option<usize> {
    match first_match_ignoring_case(headers, length_key()) {
        Some(p) => {
            let from = skip_blanks(headers, p + length_key().len());
            let to = skip_digits(headers, from);
            number_of(headers.subrange(from, to))
        },
        None => None,
    }
}

/// A longer run of digits writes no smaller a number.
pub proof fn lemma_digits_monotone(s: Seq<u8>, a: int, i: int, b: int)
    requires
        0 <= a <= i <= b <= s.len(),
    ensures
        digits_value(s.subrange(a, i)) <= digits_value(s.subrange(a, b)),
    decreases b - i,
{
    if i < b {
        lemma_digits_monotone(s, a, i, b - 1);
        assert(s.subrange(a, b).drop_last() =~= s.subrange(a, b - 1));
    }
}

/// Reads the number that the digits `s[from..to]` write.
pub(crate) fn parse_digits(s: &[u8], from: usize, to: usize) -> (r: Option<usize>)
    requires
        from <= to <= s.len(),
        forall|k: int| from <= k < to ==> is_digit(s@[k]),
    ensures
        r == number_of(s@.subrange(from as int, to as int)),
{
    if to == from {
        return None;
    }
    let mut value: usize = 0;
    let mut i: usize = from;
    assert(s@.subrange(from as int, from as int) =~= Seq::empty());
    while i < to
        invariant
            from <= i <= to <= s.len(),
            forall|k: int| from <= k < to ==> is_digit(s@[k]),
            value == digits_value(s@.subrange(from as int, i as int)),
        decreases to - i,
    {
        let d: usize = (s[i] - '0' as u8) as usize;
        proof {
            assert(s@.subrange(from as int, i + 1).drop_last() =~= s@.subrange(
                from as int,
                i as int,
            ));
            lemma_digits_monotone(s@, from as int, i + 1, to as int);
        }
        if value > (usize::MAX - d) / 10 {
            return None;
        }
        value = value * 10 + d;
        i += 1;
    }
    Some(value)
}

/// Reads the declared body length from a header block by scanning its
/// bytes for `content-length:` in any case.
pub fn extract_content_length_simple(headers: &[u8]) -> (r: Option<usize>)
    ensures
        r == declared_length(headers@),
{
    let key: &[u8] = "content-length:".as_bytes();
    let total: usize = headers.len();
    match find_pattern_case_insensitive(headers, key) {
        Some(start_pos) => {
            let value_start: usize = start_pos + key.len();
            let mut number_start: usize = value_start;
            while number_start < headers.len() && (headers[number_start] == ' ' as u8
                || headers[number_start] == '\t' as u8)
                invariant
                    value_start <= number_start <= headers.len(),
                    skip_blanks(headers@, value_start as int) == skip_blanks(
                        headers@,
                        number_start as int,
                    ),
                decreases headers.len() - number_start,
            {
                number_start += 1;
            }
            let mut value_end: usize = number_start;
            while value_end < headers.len() && headers[value_end] >= '0' as u8
                && headers[value_end] <= '9' as u8
                invariant
                    number_start <= value_end <= headers.len(),
                    skip_digits(headers@, number_start as int) == skip_digits(
                        headers@,
                        value_end as int,
                    ),
                    forall|k: int| number_start <= k < value_end ==> is_digit(headers@[k]),
                decreases headers.len() - value_end,
            {
                value_end += 1;
            }
            parse_digits(headers, number_start, value_end)
        },
        None => None,
    }
}

/// White space of the ASCII range: tab, line feed, vertical tab, form
/// feed, carriage return and space.
pub open spec fn is_space(b: u8) -> bool {
    9 <= b <= 13 || b == 32
}

/// The first offset in `from..to` that holds no white space, or `to`.
pub open spec fn trim_start(s: Seq<u8>, from: int, to: int) -> int
    decreases to - from,
{
    if 0 <= from < to <= s.len() && is_space(s[from]) {
        trim_start(s, from + 1, to)
    } else {
        from
    }
}

/// The offset behind the last byte in `from..to` that is no white space,
/// or `from`.
pub open spec fn trim_end(s: Seq<u8>, from: int, to: int) -> int
    decreases to - from,
{
    if 0 <= from < to <= s.len() && is_space(s[to - 1]) {
        trim_end(s, from, to - 1)
    } else {
        to
    }
}

/// `s` without the white space at its start and at its end.
pub open spec fn trimmed(s: Seq<u8>) -> Seq<u8> {
    let from = trim_start(s, 0, s.len() as int);
    s.subrange(from, trim_end(s, from, s.len() as int))
}

/// The span of `s[from..to]` without the white space at its start and at
/// its end.
pub(crate) fn trim_span(s: &[u8], from: usize, to: usize) -> (r: (usize, usize))
    requires
        from <= to <= s.len(),
    ensures
        r.0 == trim_start(s@, from as int, to as int),
        r.1 == trim_end(s@, r.0 as int, to as int),
        from <= r.0 <= r.1 <= to,
{
    let mut a: usize = from;
    while a < to && (s[a] == 32 || (s[a] >= 9 && s[a] <= 13))
        invariant
            from <= a <= to <= s.len(),
            trim_start(s@, from as int, to as int) == trim_start(s@, a as int, to as int),
        decreases to - a,
    {
        a += 1;
    }
    let mut b: usize = to;
    while a < b && (s[b - 1] == 32 || (s[b - 1] >= 9 && s[b - 1] <= 13))
        invariant
            a <= b <= to <= s.len(),
            trim_end(s@, a as int, to as int) == trim_end(s@, a as int, b as int),
        decreases b - a,
    {
        b -= 1;
    }
    (a, b)
}

/// A text without the `+` at its start, if it has one.
pub open spec fn unsigned(text: Seq<u8>) -> Seq<u8> {
    if text.len() > 0 && text[0] == '+' as u8 {
        text.subrange(1, text.len() as int)
    } else {
        text
    }
}

/// Every byte is a decimal digit.
pub open spec fn all_digits(s: Seq<u8>) -> bool {
    forall|k: int| 0 <= k < s.len() ==> is_digit(#[trigger] s[k])
}

/// The number that a text writes: digits, behind a `+` or not. Anything
/// else, and a number that a `usize` cannot hold, is no number.
pub open spec fn number_of_text(text: Seq<u8>) -> Option<usize> {
    if all_digits(unsigned(text)) {
        number_of(unsigned(text))
    } else {
        None
    }
}

/// Reads the number that `s[from..to]` writes.
pub(crate) fn parse_number(s: &[u8], from: usize, to: usize) -> (r: Option<usize>)
    requires
        from <= to <= s.len(),
    ensures
        r == number_of_text(s@.subrange(from as int, to as int)),
{
    let ghost text = s@.subrange(from as int, to as int);
    let start: usize = if from < to && s[from] == '+' as u8 {
        from + 1
    } else {
        from
    };
    let ghost digits = s@.subrange(start as int, to as int);
    assert(digits =~= unsigned(text));
    let mut i: usize = start;
    while i < to
        invariant
            start <= i <= to <= s.len(),
            text == s@.subrange(from as int, to as int),
            digits == s@.subrange(start as int, to as int),
            digits == unsigned(text),
            forall|k: int| start <= k < i ==> is_digit(s@[k]),
        decreases to - i,
    {
        if !(s[i] >= '0' as u8 && s[i] <= '9' as u8) {
            assert(digits[i - start] == s@[i as int]);
            assert(!all_digits(digits));
            return None;
        }
        i += 1;
    }
    assert forall|k: int| 0 <= k < digits.len() implies is_digit(#[trigger] digits[k]) by {
        assert(digits[k] == s@[start + k]);
    }
    parse_digits(s, start, to)
}

/// The separator of lines.
pub open spec fn line_feed() -> Seq<u8> {
    seq![LF]
}

/// The separator of the parts of a line.
pub open spec fn colon() -> Seq<u8> {
    seq![':' as u8]
}

/// A line without the carriage return at its end, if it has one.
pub open spec fn without_cr(line: Seq<u8>) -> Seq<u8> {
    if line.len() > 0 && line.last() == CR {
        line.drop_last()
    } else {
        line
    }
}

/// Whether a line starts with `content-length:`, in any ASCII case.
pub open spec fn is_length_line(line: Seq<u8>) -> bool {
    matches_ignoring_case_at(line, length_key(), 0)
}

/// The number behind the first colon of a line: what stands between the
/// first colon and the second, or the end, trimmed and read as a number.
pub open spec fn value_of_line(line: Seq<u8>) -> Option<usize> {
    let parts = split(line, colon());
    if parts.len() > 1 {
        number_of_text(trimmed(parts[1]))
    } else {
        None
    }
}

/// The value of the first length line among `lines[from..]`.
pub open spec fn first_length_value(lines: Seq<Seq<u8>>, from: int) -> Option<usize>
    decreases lines.len() - from,
{
    if from < 0 || from >= lines.len() {
        None
    } else if is_length_line(without_cr(lines[from])) {
        value_of_line(without_cr(lines[from]))
    } else {
        first_length_value(lines, from + 1)
    }
}

/// The length that the lines of a header block declare: the block must be
/// well-formed UTF-8; its first line that starts with `content-length:`, in
/// any ASCII case, decides.
pub open spec fn declared_length_by_line(headers: Seq<u8>) -> Option<usize> {
    if vstd::utf8::valid_utf8(headers) {
        first_length_value(split(headers, line_feed()), 0)
    } else {
        None
    }
}

/// The number behind the first colon of a line.
pub fn line_value(line: &[u8]) -> (r: Option<usize>)
    ensures
        r == value_of_line(line@),
{
    let sep: [u8; 1] = [':' as u8];
    assert(sep@ =~= colon());
    let spans = split_on(line, sep.as_slice());
    if spans.len() > 1 {
        let span = spans[1];
        assert(spans_of(spans@)[1] == (span.0 as int, span.1 as int));
        let part = slice_subrange(line, span.0, span.1);
        let t = trim_span(part, 0, part.len());
        parse_number(part, t.0, t.1)
    } else {
        None
    }
}

/// Reads the declared body length from a header block, line by line.
pub fn extract_content_length_fast(headers: &[u8]) -> (r: Option<usize>)
    ensures
        r == declared_length_by_line(headers@),
{
    if as_text(headers).is_none() {
        return None;
    }
    let sep: [u8; 1] = [LF];
    assert(sep@ =~= line_feed());
    let spans = split_on(headers, sep.as_slice());
    let ghost lines = split(headers@, line_feed());
    let key: &[u8] = "content-length:".as_bytes();
    let mut k: usize = 0;
    while k < spans.len()
        invariant
            k <= spans.len(),
            key@ == length_key(),
            vstd::utf8::valid_utf8(headers@),
            lines == split(headers@, line_feed()),
            lines.len() == spans@.len(),
            spans_of(spans@) == piece_spans(headers@, line_feed(), 0),
            spans_within(spans@, headers@.len() as int),
            first_length_value(lines, 0) == first_length_value(lines, k as int),
        decreases spans.len() - k,
    {
        let span = spans[k];
        assert(spans_of(spans@)[k as int] == (span.0 as int, span.1 as int));
        let end: usize = if span.1 > span.0 && headers[span.1 - 1] == CR {
            span.1 - 1
        } else {
            span.1
        };
        let line = slice_subrange(headers, span.0, end);
        assert(line@ =~= without_cr(lines[k as int]));
        if occurs_ignoring_case_at(line, key, 0) {
            return line_value(line);
        }
        k += 1;
    }
    None
}

} // verus!
