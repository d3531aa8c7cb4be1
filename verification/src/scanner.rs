//! The byte scanner: where the header block of a message ends, found by a
//! scalar scan and by wide scans that agree with it byte for byte, and the
//! split of a slice into chunks on a delimiter.

use vstd::prelude::*;
use vstd::slice::slice_subrange;
use crate::search::{
    first_match_from, lemma_first_match_unique, lemma_no_match_none, matches_at, occurs_at,
    offset_of, spans_of, spans_within,
};
use crate::text::{copy_range, CR, LF};

verus! {

/// The delimiter between header block and body: `\r\n\r\n`.
pub open spec fn header_delimiter() -> Seq<u8> {
    seq![CR, LF, CR, LF]
}

/// The delimiter stands in `data` at offset `i`.
pub open spec fn is_header_end_at(data: Seq<u8>, i: int) -> bool {
    &&& 0 <= i
    &&& i + 4 <= data.len()
    &&& data[i] == CR
    &&& data[i + 1] == LF
    &&& data[i + 2] == CR
    &&& data[i + 3] == LF
}

/// The offset of the first delimiter in `data` at or after `from`, if any.
pub open spec fn first_header_end_from(data: Seq<u8>, from: int) -> Option<int> {
    first_match_from(data, header_delimiter(), from)
}

/// The offset of the first delimiter in `data`, if any.
pub open spec fn first_header_end(data: Seq<u8>) -> Option<int> {
    first_header_end_from(data, 0)
}

/// Byte by byte, the delimiter at `i` is an occurrence of the pattern at
/// `i`.
pub proof fn lemma_header_end_at(data: Seq<u8>, i: int)
    ensures
        is_header_end_at(data, i) <==> matches_at(data, header_delimiter(), i),
{
    let d = header_delimiter();
    if is_header_end_at(data, i) {
        assert(data.subrange(i, i + 4) =~= d);
    }
    if matches_at(data, d, i) {
        let w = data.subrange(i, i + 4);
        assert(w[0] == d[0] && w[1] == d[1] && w[2] == d[2] && w[3] == d[3]);
    }
}

/// No delimiter stands in `data` at an offset in `from..to`.
pub open spec fn no_header_end_in(data: Seq<u8>, from: int, to: int) -> bool {
    forall|j: int| from <= j < to ==> !is_header_end_at(data, j)
}

/// A delimiter at `p` with none in `from..p` is the first from `from` on.
pub proof fn lemma_found(data: Seq<u8>, from: int, p: int)
    requires
        0 <= from <= p,
        is_header_end_at(data, p),
        no_header_end_in(data, from, p),
    ensures
        first_header_end_from(data, from) == Some(p),
{
    let d = header_delimiter();
    lemma_header_end_at(data, p);
    assert forall|j: int| from <= j < p implies !matches_at(data, d, j) by {
        lemma_header_end_at(data, j);
    }
    lemma_first_match_unique(data, d, from, p);
}

/// Where no delimiter stands in `from..to` and none can start at or after
/// `to`, there is none from `from` on.
pub proof fn lemma_not_found(data: Seq<u8>, from: int, to: int)
    requires
        0 <= from,
        no_header_end_in(data, from, to),
        to + 4 > data.len(),
    ensures
        first_header_end_from(data, from) is None,
{
    let d = header_delimiter();
    assert forall|j: int| from <= j implies !matches_at(data, d, j) by {
        lemma_header_end_at(data, j);
    }
    lemma_no_match_none(data, d, from);
}

/// Does the delimiter stand in `data` at offset `i`?
pub fn header_end_at(data: &[u8], i: usize) -> (r: bool)
    ensures
        r == is_header_end_at(data@, i as int),
{
    data.len() >= 4 && i <= data.len() - 4 && data[i] == CR && data[i + 1] == LF && data[i + 2]
        == CR && data[i + 3] == LF
}

/// The scalar scan from `from` on: a window compared at every offset.
fn scan_scalar_from(data: &[u8], from: usize) -> (r: Option<usize>)
    ensures
        offset_of(r) == first_header_end_from(data@, from as int),
{
    let mut i: usize = from;
    while data.len() >= 4 && i <= data.len() - 4
        invariant
            from <= i,
            no_header_end_in(data@, from as int, i as int),
        decreases data.len() - i,
    {
        if header_end_at(data, i) {
            proof {
                lemma_found(data@, from as int, i as int);
            }
            return Some(i);
        }
        i += 1;
    }
    proof {
        lemma_not_found(data@, from as int, i as int);
    }
    None
}

/// Finds the first `\r\n\r\n` in `data` by comparing a four-byte window at
/// every offset, left to right.
pub fn find_header_end_scalar(data: &[u8]) -> (r: Option<usize>)
    ensures
        offset_of(r) == first_header_end(data@),
{
    scan_scalar_from(data, 0)
}

/// Finds the first `\r\n\r\n` in `data`, skipping ahead to the next `\r`
/// after a window that does not start with one.
pub fn find_header_end_optimized(data: &[u8]) -> (r: Option<usize>)
    ensures
        offset_of(r) == first_header_end(data@),
{
    if data.len() < 4 {
        proof {
            lemma_not_found(data@, 0, 0);
        }
        return None;
    }
    let mut i: usize = 0;
    while i <= data.len() - 4
        invariant
            data.len() >= 4,
            i <= data.len(),
            no_header_end_in(data@, 0, i as int),
        decreases data.len() - i,
    {
        if header_end_at(data, i) {
            proof {
                lemma_found(data@, 0, i as int);
            }
            return Some(i);
        }
        if data[i] != CR {
            let ghost start = i;
            while i < data.len() && data[i] != CR
                invariant
                    start <= i <= data.len(),
                    start < data.len(),
                    data@[start as int] != CR,
                    no_header_end_in(data@, 0, i as int),
                decreases data.len() - i,
            {
                i += 1;
            }
            assert(i > start);
        } else {
            i += 1;
        }
    }
    proof {
        lemma_not_found(data@, 0, i as int);
    }
    None
}

/// Bit `k` of a sixteen-bit mask is set.
pub open spec fn bit16(mask: u16, k: u16) -> bool {
    mask & (1u16 << k) != 0
}

/// Bit `k` of a thirty-two-bit mask is set.
pub open spec fn bit32(mask: u32, k: u32) -> bool {
    mask & (1u32 << k) != 0
}

/// The mask of the sixteen bytes from `at` on: bit `k` is set where byte
/// `at + k` is a carriage return.
fn cr_mask16(data: &[u8], at: usize) -> (mask: u16)
    requires
        at + 16 <= data.len(),
    ensures
        forall|k: u16| 0 <= k < 16 ==> bit16(mask, k) == (data@[at + k] == CR),
{
    let mut mask: u16 = 0;
    let mut k: u16 = 0;
    assert forall|j: u16| 0 <= j < 16 implies !bit16(0u16, j) by {
        assert(0u16 & (1u16 << j) == 0) by (bit_vector);
    }
    while k < 16
        invariant
            k <= 16,
            at + 16 <= data.len(),
            forall|j: u16| 0 <= j < k ==> bit16(mask, j) == (data@[at + j] == CR),
            forall|j: u16| k <= j < 16 ==> !bit16(mask, j),
        decreases 16 - k,
    {
        if data[at + k as usize] == CR {
            let ghost before = mask;
            mask = mask | (1u16 << k);
            assert forall|j: u16| 0 <= j < 16 implies bit16(mask, j) == (j == k || bit16(
                before,
                j,
            )) by {
                assert(((before | (1u16 << k)) & (1u16 << j) != 0) == (j == k || (before & (1u16
                    << j) != 0))) by (bit_vector)
                    requires
                        j < 16,
                        k < 16,
                ;
            }
        }
        k += 1;
    }
    mask
}

/// The mask of the thirty-two bytes from `at` on: bit `k` is set where
/// byte `at + k` is a carriage return.
fn cr_mask32(data: &[u8], at: usize) -> (mask: u32)
    requires
        at + 32 <= data.len(),
    ensures
        forall|k: u32| 0 <= k < 32 ==> bit32(mask, k) == (data@[at + k] == CR),
{
    let mut mask: u32 = 0;
    let mut k: u32 = 0;
    assert forall|j: u32| 0 <= j < 32 implies !bit32(0u32, j) by {
        assert(0u32 & (1u32 << j) == 0) by (bit_vector);
    }
    while k < 32
        invariant
            k <= 32,
            at + 32 <= data.len(),
            forall|j: u32| 0 <= j < k ==> bit32(mask, j) == (data@[at + j] == CR),
            forall|j: u32| k <= j < 32 ==> !bit32(mask, j),
        decreases 32 - k,
    {
        if data[at + k as usize] == CR {
            let ghost before = mask;
            mask = mask | (1u32 << k);
            assert forall|j: u32| 0 <= j < 32 implies bit32(mask, j) == (j == k || bit32(
                before,
                j,
            )) by {
                assert(((before | (1u32 << k)) & (1u32 << j) != 0) == (j == k || (before & (1u32
                    << j) != 0))) by (bit_vector)
                    requires
                        j < 32,
                        k < 32,
                ;
            }
        }
        k += 1;
    }
    mask
}

/// The sixteen-wide scan from `from` on: each block of sixteen bytes is
/// searched for carriage returns at once, a full window is compared at each
/// one found, and the scalar scan takes the tail that is shorter than a
/// block.
fn scan16_from(data: &[u8], from: usize) -> (r: Option<usize>)
    ensures
        offset_of(r) == first_header_end_from(data@, from as int),
{
    if from > data.len() || data.len() - from < 16 {
        return scan_scalar_from(data, from);
    }
    let end: usize = data.len() - 15;
    let mut i: usize = from;
    while i < end
        invariant
            end + 15 == data.len(),
            from <= i <= data.len(),
            no_header_end_in(data@, from as int, i as int),
        decreases data.len() - i,
    {
        let cr_mask = cr_mask16(data, i);
        if cr_mask != 0 {
            let mut bit_pos: u16 = 0;
            while bit_pos < 16
                invariant
                    bit_pos <= 16,
                    i + 16 <= data.len(),
                    from <= i,
                    forall|k: u16| 0 <= k < 16 ==> bit16(cr_mask, k) == (data@[i + k] == CR),
                    no_header_end_in(data@, from as int, i + bit_pos),
                decreases 16 - bit_pos,
            {
                if cr_mask & (1u16 << bit_pos) != 0 {
                    let pos: usize = i + bit_pos as usize;
                    if header_end_at(data, pos) {
                        proof {
                            lemma_found(data@, from as int, pos as int);
                        }
                        return Some(pos);
                    }
                } else {
                    assert(!bit16(cr_mask, bit_pos));
                    assert(data@[i + bit_pos] != CR);
                }
                bit_pos += 1;
            }
        } else {
            assert forall|k: u16| 0 <= k < 16 implies !bit16(0u16, k) by {
                assert(0u16 & (1u16 << k) == 0) by (bit_vector);
            }
            assert forall|j: int| i <= j < i + 16 implies !is_header_end_at(data@, j) by {
                let k = (j - i) as u16;
                assert(!bit16(cr_mask, k));
                assert(data@[i + k] != CR);
            }
        }
        i += 16;
    }
    let tail = scan_scalar_from(data, i);
    proof {
        lemma_join(data@, from as int, i as int);
    }
    tail
}

/// With no delimiter in `from..mid`, the first from `from` on is the first
/// from `mid` on.
pub proof fn lemma_join(data: Seq<u8>, from: int, mid: int)
    requires
        0 <= from <= mid,
        no_header_end_in(data, from, mid),
    ensures
        first_header_end_from(data, from) == first_header_end_from(data, mid),
    decreases mid - from,
{
    if from < mid {
        lemma_header_end_at(data, from);
        lemma_join(data, from + 1, mid);
    }
}

/// The thirty-two-wide scan from `from` on; the sixteen-wide scan takes
/// the tail that is shorter than a block.
fn scan32_from(data: &[u8], from: usize) -> (r: Option<usize>)
    ensures
        offset_of(r) == first_header_end_from(data@, from as int),
{
    if from > data.len() || data.len() - from < 32 {
        return scan16_from(data, from);
    }
    let end: usize = data.len() - 31;
    let mut i: usize = from;
    while i < end
        invariant
            end + 31 == data.len(),
            from <= i <= data.len(),
            no_header_end_in(data@, from as int, i as int),
        decreases data.len() - i,
    {
        let cr_mask = cr_mask32(data, i);
        if cr_mask != 0 {
            let mut bit_pos: u32 = 0;
            while bit_pos < 32
                invariant
                    bit_pos <= 32,
                    i + 32 <= data.len(),
                    from <= i,
                    forall|k: u32| 0 <= k < 32 ==> bit32(cr_mask, k) == (data@[i + k] == CR),
                    no_header_end_in(data@, from as int, i + bit_pos),
                decreases 32 - bit_pos,
            {
                if cr_mask & (1u32 << bit_pos) != 0 {
                    let pos: usize = i + bit_pos as usize;
                    if header_end_at(data, pos) {
                        proof {
                            lemma_found(data@, from as int, pos as int);
                        }
                        return Some(pos);
                    }
                } else {
                    assert(!bit32(cr_mask, bit_pos));
                    assert(data@[i + bit_pos] != CR);
                }
                bit_pos += 1;
            }
        } else {
            assert forall|k: u32| 0 <= k < 32 implies !bit32(0u32, k) by {
                assert(0u32 & (1u32 << k) == 0) by (bit_vector);
            }
            assert forall|j: int| i <= j < i + 32 implies !is_header_end_at(data@, j) by {
                let k = (j - i) as u32;
                assert(!bit32(cr_mask, k));
                assert(data@[i + k] != CR);
            }
        }
        i += 32;
    }
    let tail = scan16_from(data, i);
    proof {
        lemma_join(data@, from as int, i as int);
    }
    tail
}

/// Finds the first `\r\n\r\n` in `data` that starts at or after `from`.
pub fn find_header_end_from(data: &[u8], from: usize) -> (r: Option<usize>)
    ensures
        offset_of(r) == first_header_end_from(data@, from as int),
        r matches Some(p) ==> from <= p && p + 4 <= data@.len(),
{
    proof {
        crate::search::lemma_first_match_from(data@, header_delimiter(), from as int);
        assert(header_delimiter().len() == 4);
    }
    scan32_from(data, from)
}

/// Finds the first `\r\n\r\n` in `data`, sixteen bytes at a time.
pub fn find_header_end_sse2(data: &[u8]) -> (r: Option<usize>)
    ensures
        offset_of(r) == first_header_end(data@),
{
    scan16_from(data, 0)
}

/// Finds the first `\r\n\r\n` in `data`, thirty-two bytes at a time.
pub fn find_header_end_avx2(data: &[u8]) -> (r: Option<usize>)
    ensures
        offset_of(r) == first_header_end(data@),
{
    scan32_from(data, 0)
}

/// The width at which a scan runs.
#[derive(Clone, Copy, Debug, PartialEq, Eq, Structural)]
pub enum ScanWidth {
    /// One window at a time.
    Scalar,
    /// Blocks of sixteen bytes.
    Wide16,
    /// Blocks of thirty-two bytes.
    Wide32,
}

/// Finds the first `\r\n\r\n` in `data` at the width that the caller found
/// the machine to support.
pub fn find_header_end_with(data: &[u8], width: ScanWidth) -> (r: Option<usize>)
    ensures
        offset_of(r) == first_header_end(data@),
{
    match width {
        ScanWidth::Scalar => find_header_end_scalar(data),
        ScanWidth::Wide16 => find_header_end_sse2(data),
        ScanWidth::Wide32 => find_header_end_avx2(data),
    }
}

/// Finds the first `\r\n\r\n` in `data` at the widest scan.
pub fn find_header_end_simd(data: &[u8]) -> (r: Option<usize>)
    ensures
        offset_of(r) == first_header_end(data@),
{
    find_header_end_with(data, ScanWidth::Wide32)
}

/// Scanner equivalence: on every input, whatever the scalar scan and a
/// wide scan return is the same offset, or "not found" for both.
pub proof fn lemma_scanner_equivalence(
    data: &[u8],
    width: ScanWidth,
    scalar: Option<usize>,
    wide: Option<usize>,
)
    requires
        call_ensures(find_header_end_scalar, (data,), scalar),
        call_ensures(find_header_end_with, (data, width), wide),
    ensures
        scalar == wide,
{
}

/// The wide scans on their own agree with the scalar scan too.
pub proof fn lemma_wide_scans_agree(
    data: &[u8],
    scalar: Option<usize>,
    wide16: Option<usize>,
    wide32: Option<usize>,
    widest: Option<usize>,
    skipping: Option<usize>,
)
    requires
        call_ensures(find_header_end_scalar, (data,), scalar),
        call_ensures(find_header_end_sse2, (data,), wide16),
        call_ensures(find_header_end_avx2, (data,), wide32),
        call_ensures(find_header_end_simd, (data,), widest),
        call_ensures(find_header_end_optimized, (data,), skipping),
    ensures
        scalar == wide16,
        scalar == wide32,
        scalar == widest,
        scalar == skipping,
{
}

/// The chunk that ends a multipart body: `--\r\n`.
pub open spec fn terminator() -> Seq<u8> {
    seq![45u8, 45u8, CR, LF]
}

/// The chunks of `data` between occurrences of `delim`, as spans
/// `(from, to)`, for a scan that stands at `i` with the current chunk
/// starting at `start`. Every offset at which `delim` occurs ends the current
/// chunk and starts the next one behind the occurrence; an empty chunk is
/// dropped, and so is a last chunk that is the terminator.
pub open spec fn chunk_spans(data: Seq<u8>, delim: Seq<u8>, i: int, start: int) -> Seq<(int, int)>
    decreases data.len() - i,
{
    if i >= data.len() {
        if start < data.len() && data.subrange(start, data.len() as int) != terminator() {
            seq![(start, data.len() as int)]
        } else {
            Seq::empty()
        }
    } else if matches_at(data, delim, i) {
        (if start < i {
            seq![(start, i)]
        } else {
            Seq::empty()
        }) + chunk_spans(data, delim, i + 1, i + delim.len())
    } else {
        chunk_spans(data, delim, i + 1, start)
    }
}

/// The chunks of `data` between occurrences of `delim`, as spans.
pub open spec fn split_spans(data: Seq<u8>, delim: Seq<u8>) -> Seq<(int, int)> {
    chunk_spans(data, delim, 0, 0)
}

/// The chunks of `data` between occurrences of `delim`.
pub open spec fn split_chunks(data: Seq<u8>, delim: Seq<u8>) -> Seq<Seq<u8>> {
    let spans = split_spans(data, delim);
    Seq::new(spans.len(), |k: int| data.subrange(spans[k].0, spans[k].1))
}

/// The header block and the body of a message: what stands before the
/// first `\r\n\r\n` and what stands behind it. Without a delimiter all of
/// `data` is header block.
pub open spec fn header_body_split(data: Seq<u8>) -> (Seq<u8>, Seq<u8>) {
    match first_header_end(data) {
        Some(p) => (data.subrange(0, p), data.subrange(p + 4, data.len() as int)),
        None => (data, Seq::empty()),
    }
}

/// Splits `data` into chunks on `delimiter`; the spans of the chunks.
pub fn split_offsets(data: &[u8], delimiter: &[u8]) -> (r: Vec<(usize, usize)>)
    ensures
        spans_of(r@) == split_spans(data@, delimiter@),
        spans_within(r@, data@.len() as int),
{
    let mut out: Vec<(usize, usize)> = Vec::new();
    let mut start: usize = 0;
    let mut i: usize = 0;
    assert(spans_of(out@) + chunk_spans(data@, delimiter@, 0, 0) =~= split_spans(
        data@,
        delimiter@,
    ));
    while i < data.len()
        invariant
            i <= data.len(),
            start <= data.len(),
            spans_of(out@) + chunk_spans(data@, delimiter@, i as int, start as int)
                == split_spans(data@, delimiter@),
            spans_within(out@, data@.len() as int),
        decreases data.len() - i,
    {
        if occurs_at(data, delimiter, i) {
            let ghost before = spans_of(out@);
            let ghost rest = chunk_spans(data@, delimiter@, i + 1, i + delimiter@.len());
            if start < i {
                out.push((start, i));
                assert(spans_of(out@) =~= before + seq![(start as int, i as int)]);
                assert(spans_of(out@) + rest =~= before + (seq![(start as int, i as int)]
                    + rest));
            } else {
                assert(spans_of(out@) + rest =~= before + (Seq::<(int, int)>::empty() + rest));
            }
            start = i + delimiter.len();
        }
        i += 1;
    }
    if start < data.len() {
        let last = slice_subrange(data, start, data.len());
        let end: [u8; 4] = [45, 45, CR, LF];
        assert(end@ =~= terminator());
        if !crate::text::bytes_eq(last, end.as_slice()) {
            let ghost before = spans_of(out@);
            out.push((start, data.len()));
            assert(spans_of(out@) =~= before + seq![(start as int, data@.len() as int)]);
        } else {
            assert(spans_of(out@) + Seq::<(int, int)>::empty() =~= spans_of(out@));
        }
    } else {
        assert(spans_of(out@) + Seq::<(int, int)>::empty() =~= spans_of(out@));
    }
    out
}

/// Splitting of owned bytes.
pub trait SplitBytes {
    /// The chunks between occurrences of `delimiter`, copied.
    fn split_bytes(&self, delimiter: &[u8]) -> Vec<Vec<u8>>;

    /// The header block and the body, copied.
    fn split_header_body(&self) -> (Vec<u8>, Vec<u8>);
}

impl SplitBytes for &[u8] {
    /// The chunks between occurrences of `delimiter`, in order, each a
    /// copy; empty chunks and a closing `--\r\n` are left out.
    fn split_bytes(&self, delimiter: &[u8]) -> (r: Vec<Vec<u8>>)
        ensures
            r@.len() == split_chunks(self@, delimiter@).len(),
            forall|k: int| 0 <= k < r@.len() ==> r@[k]@ == split_chunks(self@, delimiter@)[k],
    {
        let data: &[u8] = *self;
        let spans = split_offsets(data, delimiter);
        let mut out: Vec<Vec<u8>> = Vec::new();
        let mut k: usize = 0;
        while k < spans.len()
            invariant
                k <= spans.len(),
                out@.len() == k,
                data@ == self@,
                spans_of(spans@) == split_spans(data@, delimiter@),
                spans_within(spans@, data@.len() as int),
                forall|j: int| 0 <= j < k ==> out@[j]@ == split_chunks(data@, delimiter@)[j],
            decreases spans.len() - k,
        {
            let span = spans[k];
            assert(spans_of(spans@)[k as int] == (span.0 as int, span.1 as int));
            out.push(copy_range(data, span.0, span.1));
            k += 1;
        }
        out
    }

    /// What stands before the first `\r\n\r\n` and what stands behind it,
    /// each a copy; without a delimiter, all of the bytes and nothing.
    fn split_header_body(&self) -> (r: (Vec<u8>, Vec<u8>))
        ensures
            (r.0@, r.1@) == header_body_split(self@),
    {
        let data: &[u8] = *self;
        match find_header_end_simd(data) {
            Some(pos) => {
                proof {
                    crate::search::lemma_first_match_from(data@, header_delimiter(), 0);
                    assert(header_delimiter().len() == 4);
                }
                let len: usize = data.len();
                (copy_range(data, 0, pos), copy_range(data, pos + 4, len))
            },
            None => {
                assert(data@.subrange(0, data@.len() as int) =~= data@);
                (copy_range(data, 0, data.len()), Vec::new())
            },
        }
    }
}

/// Splitting into views of the bytes.
pub trait SplitBytesArena<'a> {
    /// The chunks between occurrences of `delimiter`, as views.
    fn split_bytes_arena(&self, delimiter: &[u8]) -> Vec<&'a [u8]>;

    /// The header block and the body, as views.
    fn split_header_body_arena(&self) -> (&'a [u8], &'a [u8]);
}

impl<'a> SplitBytesArena<'a> for &'a [u8] {
    /// The chunks between occurrences of `delimiter`, in order, each a
    /// view into the bytes; empty chunks and a closing `--\r\n` are left
    /// out.
    fn split_bytes_arena(&self, delimiter: &[u8]) -> (r: Vec<&'a [u8]>)
        ensures
            r@.len() == split_chunks(self@, delimiter@).len(),
            forall|k: int| 0 <= k < r@.len() ==> r@[k]@ == split_chunks(self@, delimiter@)[k],
    {
        let data: &'a [u8] = *self;
        let spans = split_offsets(data, delimiter);
        let mut out: Vec<&'a [u8]> = Vec::new();
        let mut k: usize = 0;
        while k < spans.len()
            invariant
                k <= spans.len(),
                out@.len() == k,
                data@ == self@,
                spans_of(spans@) == split_spans(data@, delimiter@),
                spans_within(spans@, data@.len() as int),
                forall|j: int| 0 <= j < k ==> out@[j]@ == split_chunks(data@, delimiter@)[j],
            decreases spans.len() - k,
        {
            let span = spans[k];
            assert(spans_of(spans@)[k as int] == (span.0 as int, span.1 as int));
            out.push(slice_subrange(data, span.0, span.1));
            k += 1;
        }
        out
    }

    /// What stands before the first `\r\n\r\n` and what stands behind it,
    /// each a view into the bytes; without a delimiter, all of the bytes and
    /// nothing.
    fn split_header_body_arena(&self) -> (r: (&'a [u8], &'a [u8]))
        ensures
            (r.0@, r.1@) == header_body_split(self@),
    {
        let data: &'a [u8] = *self;
        match find_header_end_simd(data) {
            Some(pos) => {
                proof {
                    crate::search::lemma_first_match_from(data@, header_delimiter(), 0);
                    assert(header_delimiter().len() == 4);
                }
                let len: usize = data.len();
                (slice_subrange(data, 0, pos), slice_subrange(data, pos + 4, len))
            },
            None => {
                assert(data@.subrange(0, data@.len() as int) =~= data@);
                (data, slice_subrange(data, 0, 0))
            },
        }
    }
}

} // verus!
