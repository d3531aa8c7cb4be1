//! Byte-pattern search over slices, with the mathematical model that the
//! rest of the crate states its contracts over.

use vstd::prelude::*;

verus! {

/// `needle` occurs in `hay` starting at offset `i`.
pub open spec fn matches_at(hay: Seq<u8>, needle: Seq<u8>, i: int) -> bool {
    &&& 0 <= i
    &&& i + needle.len() <= hay.len()
    &&& hay.subrange(i, i + needle.len()) == needle
}

/// `p` is the smallest offset `>= from` at which `needle` occurs in `hay`.
pub open spec fn is_first_match(hay: Seq<u8>, needle: Seq<u8>, from: int, p: int) -> bool {
    &&& from <= p
    &&& matches_at(hay, needle, p)
    &&& forall|j: int| from <= j < p ==> !matches_at(hay, needle, j)
}

/// No occurrence of `needle` in `hay` starts at or after `from`.
pub open spec fn no_match_from(hay: Seq<u8>, needle: Seq<u8>, from: int) -> bool {
    forall|j: int| from <= j ==> !matches_at(hay, needle, j)
}

/// The smallest offset `>= from` at which `needle` occurs in `hay`, if any.
pub open spec fn first_match_from(hay: Seq<u8>, needle: Seq<u8>, from: int) -> Option<int>
    decreases hay.len() - from + 1,
{
    if from < 0 || from + needle.len() > hay.len() {
        None
    } else if matches_at(hay, needle, from) {
        Some(from)
    } else {
        first_match_from(hay, needle, from + 1)
    }
}

/// The smallest offset at which `needle` occurs in `hay`, if any.
pub open spec fn first_match(hay: Seq<u8>, needle: Seq<u8>) -> Option<int> {
    first_match_from(hay, needle, 0)
}

/// `first_match_from` returns exactly the least matching offset.
pub proof fn lemma_first_match_from(hay: Seq<u8>, needle: Seq<u8>, from: int)
    requires
        0 <= from,
    ensures
        match first_match_from(hay, needle, from) {
            Some(p) => is_first_match(hay, needle, from, p),
            None => no_match_from(hay, needle, from),
        },
    decreases hay.len() - from + 1,
{
    if from + needle.len() > hay.len() {
    } else if matches_at(hay, needle, from) {
    } else {
        lemma_first_match_from(hay, needle, from + 1);
    }
}

/// A least matching offset is what `first_match_from` returns.
pub proof fn lemma_first_match_unique(hay: Seq<u8>, needle: Seq<u8>, from: int, p: int)
    requires
        0 <= from,
        is_first_match(hay, needle, from, p),
    ensures
        first_match_from(hay, needle, from) == Some(p),
    decreases p - from,
{
    if from < p {
        lemma_first_match_unique(hay, needle, from + 1, p);
    }
}

/// Where nothing matches from `from` on, `first_match_from` is `None`.
pub proof fn lemma_no_match_none(hay: Seq<u8>, needle: Seq<u8>, from: int)
    requires
        0 <= from,
        no_match_from(hay, needle, from),
    ensures
        first_match_from(hay, needle, from) is None,
    decreases hay.len() - from + 1,
{
    if from + needle.len() <= hay.len() {
        lemma_no_match_none(hay, needle, from + 1);
    }
}

/// Does `needle` occur in `hay` at offset `i`?
pub fn occurs_at(hay: &[u8], needle: &[u8], i: usize) -> (r: bool)
    ensures
        r == matches_at(hay@, needle@, i as int),
{
    if i > hay.len() || needle.len() > hay.len() - i {
        return false;
    }
    let n: usize = needle.len();
    let mut k: usize = 0;
    while k < n
        invariant
            n == needle.len(),
            i + n <= hay.len(),
            k <= n,
            forall|j: int| 0 <= j < k ==> hay@[i + j] == needle@[j],
        decreases n - k,
    {
        if hay[i + k] != needle[k] {
            assert(hay@.subrange(i as int, i + n)[k as int] == hay@[i + k]);
            return false;
        }
        k += 1;
    }
    assert(hay@.subrange(i as int, i + n) =~= needle@);
    true
}

/// The result of a search, as the offset it stands for.
pub open spec fn offset_of(r: Option<usize>) -> Option<int> {
    match r {
        Some(p) => Some(p as int),
        None => None,
    }
}

/// Finds the first occurrence of `needle` in `hay` at or after `from`.
pub fn find_from(hay: &[u8], needle: &[u8], from: usize) -> (r: Option<usize>)
    ensures
        offset_of(r) == first_match_from(hay@, needle@, from as int),
        r matches Some(p) ==> from <= p && p + needle.len() <= hay.len(),
{
    if from > hay.len() || needle.len() > hay.len() - from {
        return None;
    }
    let last: usize = hay.len() - needle.len();
    let mut i: usize = from;
    loop
        invariant
            last + needle.len() == hay.len(),
            from <= i <= last,
            first_match_from(hay@, needle@, from as int) == first_match_from(
                hay@,
                needle@,
                i as int,
            ),
        decreases last - i,
    {
        if occurs_at(hay, needle, i) {
            return Some(i);
        }
        if i == last {
            assert(first_match_from(hay@, needle@, i + 1) is None);
            return None;
        }
        i += 1;
    }
}

/// The pieces of `s` between occurrences of `delim`, from `from` on, as
/// spans `(from, to)`: each occurrence is taken at the leftmost offset behind
/// the previous one, so occurrences never overlap, and the last piece runs
/// to the end. An empty `delim` splits nothing.
pub open spec fn piece_spans(s: Seq<u8>, delim: Seq<u8>, from: int) -> Seq<(int, int)>
    decreases s.len() - from,
{
    match first_match_from(s, delim, from) {
        Some(p) => if from <= p && delim.len() > 0 && p + delim.len() <= s.len() {
            seq![(from, p)] + piece_spans(s, delim, p + delim.len())
        } else {
            seq![(from, s.len() as int)]
        },
        None => seq![(from, s.len() as int)],
    }
}

/// The parts of `s` that the spans name.
pub open spec fn pieces(s: Seq<u8>, spans: Seq<(int, int)>) -> Seq<Seq<u8>> {
    Seq::new(spans.len(), |k: int| s.subrange(spans[k].0, spans[k].1))
}

/// The pieces of `s` between occurrences of `delim`.
pub open spec fn split(s: Seq<u8>, delim: Seq<u8>) -> Seq<Seq<u8>> {
    pieces(s, piece_spans(s, delim, 0))
}

/// Spans of offsets, as a mathematical value.
pub open spec fn spans_of(spans: Seq<(usize, usize)>) -> Seq<(int, int)> {
    Seq::new(spans.len(), |k: int| (spans[k].0 as int, spans[k].1 as int))
}

/// Every span lies within a sequence of length `len`.
pub open spec fn spans_within(spans: Seq<(usize, usize)>, len: int) -> bool {
    forall|k: int| 0 <= k < spans.len() ==> (#[trigger] spans[k]).0 <= spans[k].1 <= len
}

/// Splits `s` on `delim`; the spans of the pieces, of which there is at
/// least one.
pub fn split_on(s: &[u8], delim: &[u8]) -> (r: Vec<(usize, usize)>)
    ensures
        spans_of(r@) == piece_spans(s@, delim@, 0),
        spans_within(r@, s@.len() as int),
        r@.len() >= 1,
{
    let mut out: Vec<(usize, usize)> = Vec::new();
    let mut from: usize = 0;
    assert(spans_of(out@) + piece_spans(s@, delim@, 0) =~= piece_spans(s@, delim@, 0));
    loop
        invariant
            from <= s.len(),
            spans_of(out@) + piece_spans(s@, delim@, from as int) == piece_spans(s@, delim@, 0),
            spans_within(out@, s@.len() as int),
        decreases s.len() - from,
    {
        let ghost before = spans_of(out@);
        let found = if delim.len() > 0 {
            find_from(s, delim, from)
        } else {
            None
        };
        match found {
            Some(p) => {
                let ghost rest = piece_spans(s@, delim@, p + delim@.len());
                out.push((from, p));
                proof {
                    assert(spans_of(out@) =~= before + seq![(from as int, p as int)]);
                    assert(spans_of(out@) + rest =~= before + (seq![(from as int, p as int)]
                        + rest));
                }
                from = p + delim.len();
            },
            None => {
                out.push((from, s.len()));
                proof {
                    assert(spans_of(out@) =~= before + seq![(from as int, s@.len() as int)]);
                    if delim@.len() == 0 {
                        lemma_first_match_from(s@, delim@, from as int);
                    }
                }
                return out;
            },
        }
    }
}

} // verus!
