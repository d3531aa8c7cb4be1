//! The incremental reader: a state machine that takes what each read from
//! the socket brought, finds where the header block ends, learns the declared
//! body length, and says when the message is complete, when to read again
//! and when to give up.

use vstd::prelude::*;
use vstd::slice::slice_subrange;
use crate::content_length::{declared_length, extract_content_length_simple};
use crate::options::Options;
use crate::scanner::{
    find_header_end_from, first_header_end, header_delimiter, is_header_end_at,
    lemma_header_end_at, lemma_join,
};
use crate::search::{lemma_first_match_from, matches_at};

verus! {

/// The size that a header block may reach: the reader stops looking for
/// its end once this many bytes are buffered.
pub const MAX_HEADER_SIZE: usize = 65536;

/// The read size of the owned flavour where none is configured.
pub const INITIAL_READ_SIZE: usize = 4096;

/// The read size of the arena flavour where none is configured.
pub const INITIAL_ARENA_SIZE: usize = 8192;

/// The size of the next read of header bytes when `current_size` bytes
/// are buffered: small while the block is small, larger as it grows.
pub open spec fn next_read_size(current_size: usize) -> usize {
    if current_size <= 512 {
        1024
    } else if current_size <= 4096 {
        2048
    } else if current_size <= 16384 {
        4096
    } else {
        8192
    }
}

/// The size of the next read of header bytes when `current_size` bytes
/// are buffered.
pub fn determine_next_read_size(current_size: usize) -> (r: usize)
    ensures
        r == next_read_size(current_size),
{
    if current_size <= 512 {
        1024
    } else if current_size <= 4096 {
        2048
    } else if current_size <= 16384 {
        4096
    } else {
        8192
    }
}

/// Why a read failed for good.
#[derive(Clone, Copy, Debug, PartialEq, Eq, Structural)]
pub enum ReadError {
    /// The stream ended, or every attempt ran out, before any byte came.
    NoData,
    /// The body was still short of its declared length when the attempts
    /// ran out.
    IncompleteBody { received: usize, expected: usize, retries: u8 },
    /// The socket reported an error.
    Io,
}

/// Where the reader stands.
#[derive(Clone, Copy, Debug, PartialEq, Eq, Structural)]
pub enum Phase {
    ReadingHeaders,
    ReadingBody,
    Complete,
    Failed(ReadError),
}

/// What the reader asks for next.
#[derive(Clone, Copy, Debug, PartialEq, Eq, Structural)]
pub enum ReadStep {
    /// Read up to `max` bytes from the socket, within the read timeout.
    Read { max: usize },
    /// The message is complete.
    Done,
    /// The read failed for good.
    Fail(ReadError),
}

/// What one read from the socket brought, as a mathematical value.
pub enum EventView {
    Data(Seq<u8>),
    Closed,
    TimedOut,
    WouldBlock,
    Failed,
}

/// What one read from the socket brought.
#[derive(Debug)]
pub enum ReadEvent {
    /// Bytes; none at all is the same as `Closed`.
    Data(Vec<u8>),
    /// A read of zero bytes.
    Closed,
    /// The read timeout ran out.
    TimedOut,
    /// The socket had nothing ready.
    WouldBlock,
    /// Any other error of the socket.
    Failed,
}

impl View for ReadEvent {
    type V = EventView;

    open spec fn view(&self) -> EventView {
        match self {
            ReadEvent::Data(bytes) => EventView::Data(bytes@),
            ReadEvent::Closed => EventView::Closed,
            ReadEvent::TimedOut => EventView::TimedOut,
            ReadEvent::WouldBlock => EventView::WouldBlock,
            ReadEvent::Failed => EventView::Failed,
        }
    }
}

/// The reader, as a mathematical value.
pub struct ReaderView {
    pub phase: Phase,
    /// Everything read so far.
    pub buffer: Seq<u8>,
    /// The offset at which the header block ends and the body starts.
    pub header_end: usize,
    /// The declared length of the body; 0 where none is declared.
    pub content_length: usize,
    /// Whether the end of the header block was found.
    pub found: bool,
    /// Failed attempts since the last bytes came.
    pub retries: u8,
    pub max_retry: u8,
    /// The size of a read of header bytes, and the size at which the
    /// search for the end of the header block stops.
    pub buffer_size: usize,
    /// The largest read of body bytes.
    pub body_chunk: usize,
    /// Whether reads of header bytes grow with the buffer.
    pub adaptive: bool,
}

/// The declared length of a header block, 0 where it declares none.
pub open spec fn length_or_zero(block: Seq<u8>) -> usize {
    match declared_length(block) {
        Some(n) => n,
        None => 0,
    }
}

impl ReaderView {
    /// A reader that has read nothing. Without any attempt allowed it has
    /// failed already.
    pub open spec fn init(max_retry: u8, buffer_size: usize, body_chunk: usize, adaptive: bool) -> ReaderView {
        ReaderView {
            phase: if max_retry == 0 {
                Phase::Failed(ReadError::NoData)
            } else {
                Phase::ReadingHeaders
            },
            buffer: Seq::empty(),
            header_end: 0,
            content_length: 0,
            found: false,
            retries: 0,
            max_retry,
            buffer_size,
            body_chunk,
            adaptive,
        }
    }

    /// The bytes of the body that are buffered.
    pub open spec fn body_received(self) -> int {
        self.buffer.len() - self.header_end
    }

    /// What holds of every reader.
    pub open spec fn wf(self) -> bool {
        &&& self.buffer_size >= 1
        &&& self.body_chunk >= 1
        &&& self.retries <= self.max_retry
        &&& self.buffer.len() <= usize::MAX
        &&& self.header_end <= self.buffer.len()
        &&& self.found ==> {
            &&& self.header_end >= 4
            &&& first_header_end(self.buffer) == Some(self.header_end - 4)
            &&& self.content_length == length_or_zero(
                self.buffer.subrange(0, self.header_end as int),
            )
        }
        &&& !self.found ==> self.content_length == 0
        &&& match self.phase {
            Phase::ReadingHeaders => {
                &&& !self.found
                &&& self.retries < self.max_retry
                &&& first_header_end(self.buffer) is None
                &&& self.buffer.len() < self.buffer_size
            },
            Phase::ReadingBody => {
                &&& self.found
                &&& self.retries < self.max_retry
                &&& self.body_received() < self.content_length
            },
            Phase::Complete => {
                &&& self.found ==> self.body_received() >= self.content_length
                &&& !self.found ==> self.header_end == self.buffer.len()
            },
            Phase::Failed(_) => true,
        }
    }

    /// What the reader asks for next.
    pub open spec fn step(self) -> ReadStep {
        match self.phase {
            Phase::ReadingHeaders => ReadStep::Read {
                max: if self.adaptive {
                    next_read_size(self.buffer.len() as usize)
                } else {
                    self.buffer_size
                },
            },
            Phase::ReadingBody => ReadStep::Read {
                max: if self.content_length - self.body_received() < self.body_chunk {
                    (self.content_length - self.body_received()) as usize
                } else {
                    self.body_chunk
                },
            },
            Phase::Complete => ReadStep::Done,
            Phase::Failed(e) => ReadStep::Fail(e),
        }
    }

    /// The reader once the header block is over without an end found: all
    /// that is buffered is header block, and there is no body.
    pub open spec fn headers_given_up(self, retries: u8) -> ReaderView {
        ReaderView {
            phase: if self.buffer.len() == 0 {
                Phase::Failed(ReadError::NoData)
            } else {
                Phase::Complete
            },
            header_end: self.buffer.len() as usize,
            retries,
            ..self
        }
    }

    /// Bytes came while the header block was read: they are appended. Where
    /// the buffer now holds the end of the header block, the declared length
    /// is read, and the message is complete as soon as that many body bytes
    /// are buffered. Where the buffer has reached its limit without an end,
    /// the header block is given up.
    pub open spec fn on_header_data(self, bytes: Seq<u8>) -> ReaderView {
        let buffer = self.buffer + bytes;
        match first_header_end(buffer) {
            Some(p) => {
                let header_end = (p + 4) as usize;
                let n = length_or_zero(buffer.subrange(0, header_end as int));
                ReaderView {
                    phase: if buffer.len() - header_end >= n {
                        Phase::Complete
                    } else {
                        Phase::ReadingBody
                    },
                    buffer,
                    header_end,
                    content_length: n,
                    found: true,
                    retries: 0,
                    ..self
                }
            },
            None => if buffer.len() >= self.buffer_size {
                ReaderView { buffer, retries: 0, ..self }.headers_given_up(0)
            } else {
                ReaderView { buffer, retries: 0, ..self }
            },
        }
    }

    /// An attempt failed while the header block was read: it is counted,
    /// and with the last one allowed the header block is given up.
    pub open spec fn on_header_retry(self) -> ReaderView {
        let retries = (self.retries + 1) as u8;
        if retries >= self.max_retry {
            self.headers_given_up(retries)
        } else {
            ReaderView { retries, ..self }
        }
    }

    /// Bytes came while the body was read: they are appended, and the
    /// message is complete as soon as the declared length is buffered.
    pub open spec fn on_body_data(self, bytes: Seq<u8>) -> ReaderView {
        let buffer = self.buffer + bytes;
        ReaderView {
            phase: if buffer.len() - self.header_end >= self.content_length {
                Phase::Complete
            } else {
                Phase::ReadingBody
            },
            buffer,
            retries: 0,
            ..self
        }
    }

    /// An attempt failed, or brought nothing, while the body was read: it
    /// is counted, and with the last one allowed the read fails.
    pub open spec fn on_body_retry(self) -> ReaderView {
        let retries = (self.retries + 1) as u8;
        if retries >= self.max_retry {
            ReaderView {
                phase: Phase::Failed(
                    ReadError::IncompleteBody {
                        received: self.body_received() as usize,
                        expected: self.content_length,
                        retries,
                    },
                ),
                retries,
                ..self
            }
        } else {
            ReaderView { retries, ..self }
        }
    }

    /// The reader after an event. A complete or failed reader stays as it
    /// is.
    pub open spec fn apply(self, event: EventView) -> ReaderView {
        match self.phase {
            Phase::ReadingHeaders => match event {
                EventView::Data(bytes) => if bytes.len() > 0 {
                    self.on_header_data(bytes)
                } else {
                    self.headers_given_up(self.retries)
                },
                EventView::Closed => self.headers_given_up(self.retries),
                EventView::TimedOut => self.on_header_retry(),
                EventView::WouldBlock => self.on_header_retry(),
                EventView::Failed => ReaderView { phase: Phase::Failed(ReadError::Io), ..self },
            },
            Phase::ReadingBody => match event {
                EventView::Data(bytes) => if bytes.len() > 0 {
                    self.on_body_data(bytes)
                } else {
                    self.on_body_retry()
                },
                EventView::Closed => self.on_body_retry(),
                EventView::TimedOut => self.on_body_retry(),
                EventView::WouldBlock => self.on_body_retry(),
                EventView::Failed => ReaderView { phase: Phase::Failed(ReadError::Io), ..self },
            },
            Phase::Complete => self,
            Phase::Failed(_) => self,
        }
    }

    /// The reader after `k` reads that timed out.
    pub open spec fn after_timeouts(self, k: nat) -> ReaderView
        decreases k,
    {
        if k == 0 {
            self
        } else {
            self.after_timeouts((k - 1) as nat).apply(EventView::TimedOut)
        }
    }
}

/// With the delimiter's first occurrence at `p` in `buffer + more`, the
/// occurrence is the first in any extension too.
proof fn lemma_first_end_stable(buffer: Seq<u8>, more: Seq<u8>, p: int)
    requires
        first_header_end(buffer) == Some(p),
    ensures
        first_header_end(buffer + more) == Some(p),
{
    let d = header_delimiter();
    let longer = buffer + more;
    lemma_first_match_from(buffer, d, 0);
    assert(d.len() == 4);
    assert forall|j: int| 0 <= j <= p implies (matches_at(longer, d, j) <==> matches_at(
        buffer,
        d,
        j,
    )) by {
        lemma_header_end_at(longer, j);
        lemma_header_end_at(buffer, j);
        if j + 4 <= buffer.len() {
            assert(longer[j] == buffer[j]);
            assert(longer[j + 1] == buffer[j + 1]);
            assert(longer[j + 2] == buffer[j + 2]);
            assert(longer[j + 3] == buffer[j + 3]);
        }
    }
    crate::search::lemma_first_match_unique(longer, d, 0, p);
}

/// Every event leaves a well-formed reader well-formed.
pub proof fn lemma_apply_wf(s: ReaderView, event: EventView)
    requires
        s.wf(),
        event matches EventView::Data(bytes) ==> s.buffer.len() + bytes.len() <= usize::MAX,
    ensures
        s.apply(event).wf(),
{
    let t = s.apply(event);
    match s.phase {
        Phase::ReadingHeaders => {
            if let EventView::Data(bytes) = event {
                if bytes.len() > 0 {
                    let buffer = s.buffer + bytes;
                    lemma_first_match_from(buffer, header_delimiter(), 0);
                    assert(header_delimiter().len() == 4);
                }
            }
        },
        Phase::ReadingBody => {
            if let EventView::Data(bytes) = event {
                if bytes.len() > 0 {
                    lemma_first_end_stable(s.buffer, bytes, s.header_end - 4);
                    assert((s.buffer + bytes).subrange(0, s.header_end as int) =~= s.buffer.subrange(
                        0,
                        s.header_end as int,
                    ));
                }
            }
        },
        _ => {},
    }
}

/// A fresh reader is well-formed.
pub proof fn lemma_init_wf(max_retry: u8, buffer_size: usize, body_chunk: usize, adaptive: bool)
    requires
        buffer_size >= 1,
        body_chunk >= 1,
    ensures
        ReaderView::init(max_retry, buffer_size, body_chunk, adaptive).wf(),
{
    let s = ReaderView::init(max_retry, buffer_size, body_chunk, adaptive);
    assert(first_header_end(s.buffer) is None);
}

/// Length-driven completion, first half: a reader that found the end of
/// the header block and reports completion has buffered at least the header
/// block and the declared length.
pub proof fn lemma_no_early_completion(s: ReaderView)
    requires
        s.wf(),
        s.found,
        s.step() == ReadStep::Done,
    ensures
        s.buffer.len() >= s.header_end + s.content_length,
        s.content_length == length_or_zero(s.buffer.subrange(0, s.header_end as int)),
{
}

/// Length-driven completion, second half: while the body is read, the
/// bytes that come complete the message exactly when they bring the buffer
/// to the header block and the declared length; until then the reader asks
/// for the bytes that are missing, or has failed.
pub proof fn lemma_completion_at_boundary(s: ReaderView, bytes: Seq<u8>)
    requires
        s.wf(),
        s.phase == Phase::ReadingBody,
        bytes.len() > 0,
    ensures
        (s.apply(EventView::Data(bytes)).step() == ReadStep::Done) <==> (s.buffer.len()
            + bytes.len() >= s.header_end + s.content_length),
        s.apply(EventView::Data(bytes)).buffer == s.buffer + bytes,
{
}

/// Length-driven completion for the read that brings the end of the
/// header block: the message is complete at once exactly when the declared
/// length is buffered too.
pub proof fn lemma_completion_with_headers(s: ReaderView, bytes: Seq<u8>, p: int)
    requires
        s.wf(),
        s.phase == Phase::ReadingHeaders,
        bytes.len() > 0,
        s.buffer.len() + bytes.len() <= usize::MAX,
        first_header_end(s.buffer + bytes) == Some(p),
    ensures
        ({
            let t = s.apply(EventView::Data(bytes));
            let n = length_or_zero((s.buffer + bytes).subrange(0, p + 4));
            &&& t.header_end == p + 4
            &&& t.content_length == n
            &&& (t.step() == ReadStep::Done) <==> (s.buffer.len() + bytes.len() >= p + 4 + n)
        }),
{
    lemma_first_match_from(s.buffer + bytes, header_delimiter(), 0);
    assert(header_delimiter().len() == 4);
}

/// A fresh reader that sees only timeouts stands in the header phase, with
/// an empty buffer and one failed attempt counted per timeout, until the
/// attempts run out.
proof fn lemma_timeouts(s: ReaderView, k: nat)
    requires
        s == ReaderView::init(s.max_retry, s.buffer_size, s.body_chunk, s.adaptive),
        k <= s.max_retry,
    ensures
        ({
            let t = s.after_timeouts(k);
            &&& t.buffer == s.buffer
            &&& t.max_retry == s.max_retry
            &&& t.retries == if s.max_retry == 0 {
                0
            } else {
                k
            }
            &&& t.phase == if k < s.max_retry {
                Phase::ReadingHeaders
            } else {
                Phase::Failed(ReadError::NoData)
            }
        }),
    decreases k,
{
    if k > 0 {
        lemma_timeouts(s, (k - 1) as nat);
    }
}

/// Retry ceiling: a reader that is allowed `max_retry` attempts and whose
/// every read times out asks for a read after each of the first
/// `max_retry - 1` timeouts and fails, for want of data, with timeout number
/// `max_retry`: after exactly that many attempts, not fewer or more.
pub proof fn lemma_retry_ceiling(
    max_retry: u8,
    buffer_size: usize,
    body_chunk: usize,
    adaptive: bool,
    k: nat,
)
    requires
        k <= max_retry,
    ensures
        ({
            let t = ReaderView::init(max_retry, buffer_size, body_chunk, adaptive).after_timeouts(
                k,
            );
            &&& k < max_retry ==> t.step() is Read
            &&& k == max_retry ==> t.step() == ReadStep::Fail(ReadError::NoData)
        }),
{
    lemma_timeouts(ReaderView::init(max_retry, buffer_size, body_chunk, adaptive), k);
}

/// The incremental reader of one connection.
pub struct IncrementalReader {
    phase: Phase,
    buffer: Vec<u8>,
    header_end: usize,
    content_length: usize,
    found: bool,
    retries: u8,
    max_retry: u8,
    buffer_size: usize,
    body_chunk: usize,
    adaptive: bool,
}

impl View for IncrementalReader {
    type V = ReaderView;

    closed spec fn view(&self) -> ReaderView {
        ReaderView {
            phase: self.phase,
            buffer: self.buffer@,
            header_end: self.header_end,
            content_length: self.content_length,
            found: self.found,
            retries: self.retries,
            max_retry: self.max_retry,
            buffer_size: self.buffer_size,
            body_chunk: self.body_chunk,
            adaptive: self.adaptive,
        }
    }
}

/// A size, or one where it is zero.
pub open spec fn at_least_one(size: usize) -> usize {
    if size == 0 {
        1
    } else {
        size
    }
}

/// The larger of a configured read size, or `fallback` where none is
/// configured, and the header limit.
pub open spec fn read_size(configured: usize, fallback: usize) -> usize {
    let wanted = if configured == 0 {
        fallback
    } else {
        configured
    };
    if wanted >= MAX_HEADER_SIZE {
        wanted
    } else {
        MAX_HEADER_SIZE
    }
}

impl IncrementalReader {
    #[verifier::type_invariant]
    spec fn inv(self) -> bool {
        self@.wf()
    }

    /// A reader that has read nothing. It gives the header block up at
    /// `buffer_size` bytes and asks for `body_chunk` body bytes at most at a
    /// time; a size of zero is taken as one.
    pub fn with_limits(max_retry: u8, buffer_size: usize, body_chunk: usize, adaptive: bool) -> (r:
        IncrementalReader)
        ensures
            r@ == ReaderView::init(
                max_retry,
                at_least_one(buffer_size),
                at_least_one(body_chunk),
                adaptive,
            ),
            r@.wf(),
    {
        let buffer_size: usize = if buffer_size == 0 {
            1
        } else {
            buffer_size
        };
        let body_chunk: usize = if body_chunk == 0 {
            1
        } else {
            body_chunk
        };
        proof {
            lemma_init_wf(max_retry, buffer_size, body_chunk, adaptive);
        }
        IncrementalReader {
            phase: if max_retry == 0 {
                Phase::Failed(ReadError::NoData)
            } else {
                Phase::ReadingHeaders
            },
            buffer: Vec::new(),
            header_end: 0,
            content_length: 0,
            found: false,
            retries: 0,
            max_retry,
            buffer_size,
            body_chunk,
            adaptive,
        }
    }

    /// The reader of the owned flavour: every read asks for the configured
    /// size, and for the header limit at least.
    pub fn new(options: &Options) -> (r: IncrementalReader)
        ensures
            r@ == ReaderView::init(
                options.read_max_retry,
                read_size(options.read_buffer_size, INITIAL_READ_SIZE),
                read_size(options.read_buffer_size, INITIAL_READ_SIZE),
                false,
            ),
            r@.wf(),
    {
        let wanted: usize = if options.read_buffer_size == 0 {
            INITIAL_READ_SIZE
        } else {
            options.read_buffer_size
        };
        let size: usize = if wanted >= MAX_HEADER_SIZE {
            wanted
        } else {
            MAX_HEADER_SIZE
        };
        IncrementalReader::with_limits(options.read_max_retry, size, size, false)
    }

    /// The reader of the arena flavour: reads of header bytes grow with
    /// the buffer, and a read of body bytes asks for the configured size at
    /// most.
    pub fn new_arena(options: &Options) -> (r: IncrementalReader)
        ensures
            r@ == ReaderView::init(
                options.read_max_retry,
                read_size(options.read_buffer_size, INITIAL_ARENA_SIZE),
                if options.read_buffer_size == 0 {
                    read_size(options.read_buffer_size, INITIAL_ARENA_SIZE)
                } else {
                    options.read_buffer_size
                },
                true,
            ),
            r@.wf(),
    {
        let wanted: usize = if options.read_buffer_size == 0 {
            INITIAL_ARENA_SIZE
        } else {
            options.read_buffer_size
        };
        let size: usize = if wanted >= MAX_HEADER_SIZE {
            wanted
        } else {
            MAX_HEADER_SIZE
        };
        let chunk: usize = if options.read_buffer_size == 0 {
            size
        } else {
            options.read_buffer_size
        };
        IncrementalReader::with_limits(options.read_max_retry, size, chunk, true)
    }

    /// What the reader asks for next.
    pub fn step(&self) -> (r: ReadStep)
        ensures
            r == self@.step(),
            self@.wf(),
    {
        proof {
            use_type_invariant(self);
        }
        match self.phase {
            Phase::ReadingHeaders => ReadStep::Read {
                max: if self.adaptive {
                    determine_next_read_size(self.buffer.len())
                } else {
                    self.buffer_size
                },
            },
            Phase::ReadingBody => {
                let missing: usize = self.content_length - (self.buffer.len() - self.header_end);
                ReadStep::Read {
                    max: if missing < self.body_chunk {
                        missing
                    } else {
                        self.body_chunk
                    },
                }
            },
            Phase::Complete => ReadStep::Done,
            Phase::Failed(e) => ReadStep::Fail(e),
        }
    }

    /// Takes what a read brought.
    pub fn on_event(self, event: ReadEvent) -> (r: IncrementalReader)
        ensures
            r@ == self@.apply(event@),
            r@.wf(),
    {
        proof {
            use_type_invariant(&self);
        }
        let ghost before = self@;
        let ghost ev = event@;
        let IncrementalReader {
            phase,
            buffer,
            header_end,
            content_length,
            found,
            retries,
            max_retry,
            buffer_size,
            body_chunk,
            adaptive,
        } = self;
        let mut buffer = buffer;
        let old_len: usize = buffer.len();
        // What the event comes to: bytes that were appended, a failed
        // attempt, the end of the stream, or an error.
        let mut got_data = false;
        let mut io_failed = false;
        let mut closed = false;
        let live = match phase {
            Phase::ReadingHeaders => true,
            Phase::ReadingBody => true,
            _ => false,
        };
        match event {
            ReadEvent::Data(bytes) => {
                if bytes.len() > 0 {
                    if live {
                        buffer.extend_from_slice(bytes.as_slice());
                    }
                    got_data = true;
                } else {
                    closed = true;
                }
            },
            ReadEvent::Closed => {
                closed = true;
            },
            ReadEvent::Failed => {
                io_failed = true;
            },
            _ => {},
        }
        let len: usize = buffer.len();
        let ghost t = before.apply(ev);
        proof {
            if live {
                lemma_apply_wf(before, ev);
                assert(t.wf());
            }
        }
        match phase {
            Phase::ReadingHeaders => {
                if io_failed {
                    IncrementalReader {
                        phase: Phase::Failed(ReadError::Io),
                        buffer,
                        header_end,
                        content_length,
                        found,
                        retries,
                        max_retry,
                        buffer_size,
                        body_chunk,
                        adaptive,
                    }
                } else if got_data {
                    let search_start: usize = if old_len >= 3 {
                        old_len - 3
                    } else {
                        0
                    };
                    proof {
                        let d = header_delimiter();
                        lemma_first_match_from(before.buffer, d, 0);
                        assert forall|j: int| 0 <= j < search_start implies !is_header_end_at(
                            buffer@,
                            j,
                        ) by {
                            lemma_header_end_at(before.buffer, j);
                            assert(buffer@[j] == before.buffer[j]);
                            assert(buffer@[j + 1] == before.buffer[j + 1]);
                            assert(buffer@[j + 2] == before.buffer[j + 2]);
                            assert(buffer@[j + 3] == before.buffer[j + 3]);
                        }
                        lemma_join(buffer@, 0, search_start as int);
                        assert(ev is Data);
                        assert(buffer@ == before.buffer + ev->Data_0);
                        assert(t == before.on_header_data(ev->Data_0));
                    }
                    match find_header_end_from(buffer.as_slice(), search_start) {
                        Some(p) => {
                            assert(first_header_end(buffer@) == Some(p as int));
                            let end: usize = p + 4;
                            let declared = extract_content_length_simple(
                                slice_subrange(buffer.as_slice(), 0, end),
                            );
                            let n: usize = match declared {
                                Some(n) => n,
                                None => 0,
                            };
                            IncrementalReader {
                                phase: if len - end >= n {
                                    Phase::Complete
                                } else {
                                    Phase::ReadingBody
                                },
                                buffer,
                                header_end: end,
                                content_length: n,
                                found: true,
                                retries: 0,
                                max_retry,
                                buffer_size,
                                body_chunk,
                                adaptive,
                            }
                        },
                        None => {
                            assert(first_header_end(buffer@) is None);
                            if len >= buffer_size {
                                IncrementalReader {
                                    phase: Phase::Complete,
                                    buffer,
                                    header_end: len,
                                    content_length,
                                    found,
                                    retries: 0,
                                    max_retry,
                                    buffer_size,
                                    body_chunk,
                                    adaptive,
                                }
                            } else {
                                IncrementalReader {
                                    phase,
                                    buffer,
                                    header_end,
                                    content_length,
                                    found,
                                    retries: 0,
                                    max_retry,
                                    buffer_size,
                                    body_chunk,
                                    adaptive,
                                }
                            }
                        },
                    }
                } else {
                    let counted: u8 = if closed {
                        retries
                    } else {
                        retries + 1
                    };
                    proof {
                        assert(buffer@ == before.buffer);
                        assert(t == if closed {
                            before.headers_given_up(before.retries)
                        } else {
                            before.on_header_retry()
                        });
                    }
                    if closed || counted >= max_retry {
                        IncrementalReader {
                            phase: if len == 0 {
                                Phase::Failed(ReadError::NoData)
                            } else {
                                Phase::Complete
                            },
                            buffer,
                            header_end: len,
                            content_length,
                            found,
                            retries: counted,
                            max_retry,
                            buffer_size,
                            body_chunk,
                            adaptive,
                        }
                    } else {
                        IncrementalReader {
                            phase,
                            buffer,
                            header_end,
                            content_length,
                            found,
                            retries: counted,
                            max_retry,
                            buffer_size,
                            body_chunk,
                            adaptive,
                        }
                    }
                }
            },
            Phase::ReadingBody => {
                if io_failed {
                    IncrementalReader {
                        phase: Phase::Failed(ReadError::Io),
                        buffer,
                        header_end,
                        content_length,
                        found,
                        retries,
                        max_retry,
                        buffer_size,
                        body_chunk,
                        adaptive,
                    }
                } else if got_data {
                    proof {
                        assert(ev is Data);
                        assert(t == before.on_body_data(ev->Data_0));
                        assert(t.buffer == buffer@);
                        assert(t.retries == 0);
                        assert(t.header_end == header_end);
                    }
                    IncrementalReader {
                        phase: if len - header_end >= content_length {
                            Phase::Complete
                        } else {
                            Phase::ReadingBody
                        },
                        buffer,
                        header_end,
                        content_length,
                        found,
                        retries: 0,
                        max_retry,
                        buffer_size,
                        body_chunk,
                        adaptive,
                    }
                } else {
                    let counted: u8 = retries + 1;
                    IncrementalReader {
                        phase: if counted >= max_retry {
                            Phase::Failed(
                                ReadError::IncompleteBody {
                                    received: len - header_end,
                                    expected: content_length,
                                    retries: counted,
                                },
                            )
                        } else {
                            phase
                        },
                        buffer,
                        header_end,
                        content_length,
                        found,
                        retries: counted,
                        max_retry,
                        buffer_size,
                        body_chunk,
                        adaptive,
                    }
                }
            },
            _ => IncrementalReader {
                phase,
                buffer,
                header_end,
                content_length,
                found,
                retries,
                max_retry,
                buffer_size,
                body_chunk,
                adaptive,
            },
        }
    }

    /// Where the reader stands.
    pub fn phase(&self) -> (r: Phase)
        ensures
            r == self@.phase,
    {
        self.phase
    }

    /// Everything read so far.
    pub fn buffer(&self) -> (r: &[u8])
        ensures
            r@ == self@.buffer,
    {
        self.buffer.as_slice()
    }

    /// The offset at which the header block ends and the body starts.
    pub fn header_end(&self) -> (r: usize)
        ensures
            r == self@.header_end,
            r <= self@.buffer.len(),
    {
        proof {
            use_type_invariant(self);
        }
        self.header_end
    }

    /// The declared length of the body, where the end of the header block
    /// was found and the block declares one.
    pub fn content_length(&self) -> (r: usize)
        ensures
            r == self@.content_length,
    {
        self.content_length
    }

    /// Failed attempts since the last bytes came.
    pub fn retries(&self) -> (r: u8)
        ensures
            r == self@.retries,
    {
        self.retries
    }

    /// Whether the message is complete.
    pub fn is_complete(&self) -> (r: bool)
        ensures
            r == (self@.step() == ReadStep::Done),
    {
        match self.phase {
            Phase::Complete => true,
            _ => false,
        }
    }

    /// The start of what was read, for a diagnosis: `limit` bytes at most.
    pub fn excerpt(&self, limit: usize) -> (r: &[u8])
        ensures
            r@ == self@.buffer.subrange(
                0,
                if limit <= self@.buffer.len() {
                    limit as int
                } else {
                    self@.buffer.len() as int
                },
            ),
    {
        let len: usize = self.buffer.len();
        slice_subrange(
            self.buffer.as_slice(),
            0,
            if limit <= len {
                limit
            } else {
                len
            },
        )
    }

    /// Hands out the buffer and the offset at which the header block ends:
    /// the message, once the reader is complete.
    pub fn into_message(self) -> (r: (Vec<u8>, usize))
        ensures
            r.0@ == self@.buffer,
            r.1 == self@.header_end,
            r.1 <= r.0@.len(),
    {
        proof {
            use_type_invariant(&self);
        }
        (self.buffer, self.header_end)
    }
}

} // verus!
