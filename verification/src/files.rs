//! Views of file contents: a mapped file, its lines, and the result of a
//! load.

use vstd::prelude::*;
use vstd::slice::slice_subrange;
use crate::search::{find_from, first_match, offset_of};
use crate::text::{as_text, utf8, CR, LF};

verus! {

/// A file that is served without a copy: a view of its mapped bytes.
pub struct ZeroCopyFile<'a> {
    data: &'a [u8],
    last_accessed: u64,
    file_size: usize,
}

impl<'a> ZeroCopyFile<'a> {
    #[verifier::type_invariant]
    spec fn inv(self) -> bool {
        self.file_size == self.data@.len() && self.file_size > 0
    }

    /// The bytes of the file.
    pub closed spec fn bytes(&self) -> Seq<u8> {
        self.data@
    }

    /// When the file was last used.
    pub closed spec fn accessed(&self) -> u64 {
        self.last_accessed
    }

    /// A view of the mapped bytes `data`, first used at `now`. An empty
    /// file cannot be mapped.
    pub fn new(data: &'a [u8], now: u64) -> (r: Option<ZeroCopyFile<'a>>)
        ensures
            r.is_some() <==> data@.len() > 0,
            r matches Some(file) ==> file.bytes() == data@ && file.accessed() == now,
    {
        if data.len() == 0 {
            None
        } else {
            Some(ZeroCopyFile { data, last_accessed: now, file_size: data.len() })
        }
    }

    /// The bytes of the file.
    pub fn as_bytes(&self) -> (r: &'a [u8])
        ensures
            r@ == self.bytes(),
    {
        self.data
    }

    /// The file as text, or `None` where it is not well-formed UTF-8.
    pub fn as_str(&self) -> (r: Option<&'a str>)
        ensures
            r.is_some() <==> vstd::utf8::valid_utf8(self.bytes()),
            r matches Some(s) ==> utf8(s@) == self.bytes(),
    {
        as_text(self.data)
    }

    /// The size of the file.
    pub fn len(&self) -> (r: usize)
        ensures
            r == self.bytes().len(),
            r > 0,
    {
        proof {
            use_type_invariant(self);
        }
        self.file_size
    }

    /// Whether the file is empty, which a mapped file never is.
    pub fn is_empty(&self) -> (r: bool)
        ensures
            r == (self.bytes().len() == 0),
            !r,
    {
        proof {
            use_type_invariant(self);
        }
        self.file_size == 0
    }

    /// Notes a use at `now`.
    pub fn update_access_time(&mut self, now: u64)
        ensures
            final(self).accessed() == now,
            final(self).bytes() == old(self).bytes(),
    {
        proof {
            use_type_invariant(&*self);
        }
        self.last_accessed = now;
    }

    /// When the file was last used.
    pub fn last_accessed(&self) -> (r: u64)
        ensures
            r == self.accessed(),
    {
        self.last_accessed
    }

    /// The bytes `start..end` of the file, or `None` where that is no
    /// range within it.
    pub fn slice(&self, start: usize, end: usize) -> (r: Option<&'a [u8]>)
        ensures
            r.is_some() <==> start <= end <= self.bytes().len(),
            r matches Some(part) ==> part@ == self.bytes().subrange(start as int, end as int),
    {
        if end > self.data.len() || start > end {
            None
        } else {
            Some(slice_subrange(self.data, start, end))
        }
    }

    /// The lines of the file, from the first on.
    pub fn lines(&self) -> (r: LineIterator<'a>)
        ensures
            r.bytes() == self.bytes(),
            r.position() == 0,
    {
        LineIterator::new(self.data)
    }

    /// The offset of the first occurrence of `pattern` in the file.
    pub fn find(&self, pattern: &[u8]) -> (r: Option<usize>)
        ensures
            offset_of(r) == first_match(self.bytes(), pattern@),
    {
        find_from(self.data, pattern, 0)
    }
}

/// The offset of the first line feed in `data` at or after `from`, or the
/// length of `data`.
pub open spec fn line_feed_from(data: Seq<u8>, from: int) -> int
    decreases data.len() - from,
{
    if from < 0 || from >= data.len() {
        data.len() as int
    } else if data[from] == LF {
        from
    } else {
        line_feed_from(data, from + 1)
    }
}

/// The end of the line that starts at `start` and whose line feed, or the
/// end of the data, stands at `stop`: a carriage return just before a line
/// feed is not part of the line.
pub open spec fn line_end(data: Seq<u8>, start: int, stop: int) -> int {
    if stop < data.len() && stop > start && data[stop - 1] == CR {
        stop - 1
    } else {
        stop
    }
}

/// A walk over the lines of some bytes. Lines end with `\n` or `\r\n`; the
/// last one may end with the bytes.
pub struct LineIterator<'a> {
    data: &'a [u8],
    pos: usize,
}

impl<'a> LineIterator<'a> {
    /// The bytes that are walked.
    pub closed spec fn bytes(&self) -> Seq<u8> {
        self.data@
    }

    /// The offset at which the next line starts.
    pub closed spec fn position(&self) -> int {
        self.pos as int
    }

    /// A walk from the start of `data`.
    pub fn new(data: &'a [u8]) -> (r: LineIterator<'a>)
        ensures
            r.bytes() == data@,
            r.position() == 0,
    {
        LineIterator { data, pos: 0 }
    }

    /// The next line, without its terminator, or `None` behind the last
    /// one.
    pub fn next(&mut self) -> (r: Option<&'a [u8]>)
        ensures
            final(self).bytes() == old(self).bytes(),
            ({
                let data = old(self).bytes();
                let start = old(self).position();
                let stop = line_feed_from(data, start);
                if start >= data.len() {
                    r is None && final(self).position() == start
                } else {
                    &&& r matches Some(line) && line@ == data.subrange(
                        start,
                        line_end(data, start, stop),
                    )
                    &&& final(self).position() == if stop < data.len() {
                        stop + 1
                    } else {
                        stop
                    }
                }
            }),
    {
        if self.pos >= self.data.len() {
            return None;
        }
        let start: usize = self.pos;
        let mut at: usize = start;
        while at < self.data.len() && self.data[at] != LF
            invariant
                start <= at <= self.data@.len(),
                start < self.data@.len(),
                line_feed_from(self.data@, start as int) == line_feed_from(self.data@, at as int),
            decreases self.data@.len() - at,
        {
            at += 1;
        }
        if at < self.data.len() {
            self.pos = at + 1;
            let end: usize = if at > start && self.data[at - 1] == CR {
                at - 1
            } else {
                at
            };
            Some(slice_subrange(self.data, start, end))
        } else {
            self.pos = at;
            Some(slice_subrange(self.data, start, at))
        }
    }
}

/// What a load of a file brought.
pub enum FileLoadResult<'a> {
    /// A copy of the bytes, from the memory cache.
    MemoryCache(Vec<u8>),
    /// The mapped file.
    DirectMemoryMap(ZeroCopyFile<'a>),
}

impl<'a> FileLoadResult<'a> {
    /// The bytes of the file.
    pub open spec fn bytes(&self) -> Seq<u8> {
        match self {
            FileLoadResult::MemoryCache(data) => data@,
            FileLoadResult::DirectMemoryMap(file) => file.bytes(),
        }
    }

    /// The bytes of the file.
    pub fn as_bytes(&self) -> (r: &[u8])
        ensures
            r@ == self.bytes(),
    {
        match self {
            FileLoadResult::MemoryCache(data) => data.as_slice(),
            FileLoadResult::DirectMemoryMap(file) => file.as_bytes(),
        }
    }

    /// The file as text, or `None` where it is not well-formed UTF-8.
    pub fn as_str(&self) -> (r: Option<&str>)
        ensures
            r.is_some() <==> vstd::utf8::valid_utf8(self.bytes()),
            r matches Some(s) ==> utf8(s@) == self.bytes(),
    {
        as_text(self.as_bytes())
    }

    /// The size of the file.
    pub fn len(&self) -> (r: usize)
        ensures
            r == self.bytes().len(),
    {
        match self {
            FileLoadResult::MemoryCache(data) => data.len(),
            FileLoadResult::DirectMemoryMap(file) => file.len(),
        }
    }

    /// Whether the file came from the memory cache.
    pub fn is_memory_cached(&self) -> (r: bool)
        ensures
            r == (self is MemoryCache),
    {
        match self {
            FileLoadResult::MemoryCache(_) => true,
            FileLoadResult::DirectMemoryMap(_) => false,
        }
    }

    /// Whether the file is served from its mapping.
    pub fn is_memory_mapped(&self) -> (r: bool)
        ensures
            r == (self is DirectMemoryMap),
    {
        match self {
            FileLoadResult::MemoryCache(_) => false,
            FileLoadResult::DirectMemoryMap(_) => true,
        }
    }
}

} // verus!
