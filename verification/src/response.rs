//! Response emission: the bytes of the status line and header block, and
//! the plan by which a payload reaches the socket.

use vstd::prelude::*;
use bumpalo::Bump;
use crate::arena::copy_into;
use crate::options::Options;
use crate::protocol::{headers_view, Header, Version};
use crate::search::{matches_at, occurs_at};
use crate::text::{
    as_text, bytes_eq, content_length_line, copy_range, crlf, decimal, eq_ignore_case, lower_seq,
    push_bytes, push_content_length, push_crlf, push_decimal, push_str, to_bytes, utf8,
};

verus! {

/// The reason phrase that the `http` crate holds for a status code, if it
/// holds one.
pub uninterp spec fn canonical_reason_of(status: u16) -> Option<Seq<char>>;

/// The media type that the `mime_guess` crate gives first for a file
/// extension, if it knows the extension.
pub uninterp spec fn mime_of_extension(ext: Seq<char>) -> Option<Seq<char>>;

/// `http::StatusCode::canonical_reason`, for a number that
/// `http::StatusCode::from_u16` takes: the phrase of that status code.
/// Numbers that `from_u16` refuses have no phrase.
#[verifier::external_body]
pub(crate) fn canonical_reason(status: u16) -> (r: Option<&'static str>)
    ensures
        match r {
            Some(phrase) => canonical_reason_of(status) == Some(phrase@),
            None => canonical_reason_of(status) is None,
        },
{
    match http::StatusCode::from_u16(status) {
        Ok(code) => code.canonical_reason(),
        Err(_) => None,
    }
}

/// `mime_guess::from_ext(..).first()`, written out as text: the first media
/// type on record for the extension.
#[verifier::external_body]
pub(crate) fn guess_mime(ext: &str) -> (r: Option<String>)
    ensures
        match r {
            Some(mime) => mime_of_extension(ext@) == Some(mime@),
            None => mime_of_extension(ext@) is None,
        },
{
    mime_guess::from_ext(ext).first().map(|mime| mime.to_string())
}

/// The media type on record for an extension that is given as bytes; an
/// extension that is not well-formed UTF-8 has none.
pub open spec fn mime_of_bytes(ext: Seq<u8>) -> Option<Seq<u8>> {
    if vstd::utf8::valid_utf8(ext) {
        match mime_of_extension(vstd::utf8::decode_utf8(ext)) {
            Some(mime) => Some(utf8(mime)),
            None => None,
        }
    } else {
        None
    }
}

/// The media type on record for an extension that is given as bytes.
pub fn guess_mime_bytes(ext: &[u8]) -> (r: Option<Vec<u8>>)
    ensures
        match r {
            Some(mime) => mime_of_bytes(ext@) == Some(mime@),
            None => mime_of_bytes(ext@) is None,
        },
{
    match as_text(ext) {
        Some(text) => {
            proof {
                vstd::utf8::encode_utf8_decode_utf8(text@);
            }
            match guess_mime(text) {
                Some(mime) => Some(to_bytes(mime.as_str())),
                None => None,
            }
        },
        None => None,
    }
}

/// The prefix that marks a file path as one to serve through the file
/// cache.
pub open spec fn zero_copy_marker() -> Seq<u8> {
    utf8("__ZERO_COPY_FILE__:"@)
}

/// The reason phrase of a status line.
pub open spec fn reason_text(reason: Option<Seq<char>>) -> Seq<u8> {
    match reason {
        Some(phrase) => utf8(phrase),
        None => utf8("<unknown status code>"@),
    }
}

/// The status line, given the reason phrase on record for the status.
pub open spec fn status_line_with(version: Version, status: u16, reason: Option<Seq<char>>) -> Seq<
    u8,
> {
    utf8(version.text()) + utf8(" "@) + decimal(status as nat) + utf8(" "@) + reason_text(reason)
        + crlf()
}

/// The status line: `VERSION SP CODE SP REASON CRLF`.
pub open spec fn status_line(version: Version, status: u16) -> Seq<u8> {
    status_line_with(version, status, canonical_reason_of(status))
}

/// One header field as a line: `name: value CRLF`.
pub open spec fn header_line(h: (Seq<u8>, Seq<u8>)) -> Seq<u8> {
    h.0 + utf8(": "@) + h.1 + crlf()
}

/// The header fields as lines, in order.
pub open spec fn header_block(hs: Seq<(Seq<u8>, Seq<u8>)>) -> Seq<u8>
    decreases hs.len(),
{
    if hs.len() == 0 {
        Seq::empty()
    } else {
        header_block(hs.drop_last()) + header_line(hs.last())
    }
}

/// Whether a header name is `content-type`, in any ASCII case.
pub open spec fn is_content_type(name: Seq<u8>) -> bool {
    lower_seq(name) == lower_seq(utf8("content-type"@))
}

/// The header fields without those named `content-type`, order kept.
pub open spec fn without_content_type(hs: Seq<(Seq<u8>, Seq<u8>)>) -> Seq<(Seq<u8>, Seq<u8>)>
    decreases hs.len(),
{
    if hs.len() == 0 {
        hs
    } else if is_content_type(hs.last().0) {
        without_content_type(hs.drop_last())
    } else {
        without_content_type(hs.drop_last()).push(hs.last())
    }
}

/// The offset behind the last `c` in `s[..end]`, or 0 where there is none.
pub open spec fn after_last_index(s: Seq<u8>, c: u8, end: int) -> int
    decreases end,
{
    if end <= 0 {
        0
    } else if s[end - 1] == c {
        end
    } else {
        after_last_index(s, c, end - 1)
    }
}

/// What follows the last `c` in `s`; all of `s` where it holds no `c`.
pub open spec fn after_last(s: Seq<u8>, c: u8) -> Seq<u8> {
    s.subrange(after_last_index(s, c, s.len() as int), s.len() as int)
}

/// What follows the last `.` of a path; all of the path where it holds
/// none. Archives and JSON files are known by it.
pub open spec fn suffix_of(path: Seq<u8>) -> Seq<u8> {
    after_last(path, '.' as u8)
}

/// The file name of a path: what follows its last `/`.
pub open spec fn base_name(path: Seq<u8>) -> Seq<u8> {
    after_last(path, '/' as u8)
}

/// The extension of a file: what follows the last `.` of its file name.
/// A file name without a `.`, or with none but the one that it starts with,
/// has no extension.
pub open spec fn file_extension(path: Seq<u8>) -> Option<Seq<u8>> {
    let name = base_name(path);
    let dot = after_last_index(name, '.' as u8, name.len() as int);
    if dot <= 1 {
        None
    } else {
        Some(name.subrange(dot, name.len() as int))
    }
}

/// The media type on record for a file, by the extension of its file
/// name.
pub open spec fn mime_of_path(path: Seq<u8>) -> Option<Seq<u8>> {
    match file_extension(path) {
        Some(ext) => mime_of_bytes(ext),
        None => None,
    }
}

/// The media type for a guess: the guess, or the generic binary type.
pub open spec fn content_type_or(guess: Option<Seq<u8>>) -> Seq<u8> {
    match guess {
        Some(mime) => mime,
        None => utf8("application/octet-stream"@),
    }
}

/// The media type of a file, by its extension.
pub open spec fn content_type_of(path: Seq<u8>) -> Seq<u8> {
    content_type_or(mime_of_path(path))
}

/// The `Content-Type` lines of a file response, given the media type on
/// record for the file. An archive is sent as an attachment; the cached path
/// names it by its file name and knows JSON by itself.
pub open spec fn file_type_lines_with(path: Seq<u8>, cached: bool, guess: Option<Seq<u8>>) -> Seq<
    u8,
> {
    if suffix_of(path) == utf8("zip"@) {
        utf8("Content-Type: application/zip\r\n"@) + utf8(
            "content-disposition: attachment; filename="@,
        ) + (if cached {
            base_name(path)
        } else {
            path
        }) + crlf()
    } else if cached && suffix_of(path) == utf8("json"@) {
        utf8("Content-Type: application/json\r\n"@)
    } else {
        utf8("Content-Type: "@) + content_type_or(guess) + crlf()
    }
}

/// The `Content-Type` lines of a file response.
pub open spec fn file_type_lines(path: Seq<u8>, cached: bool) -> Seq<u8> {
    file_type_lines_with(path, cached, mime_of_path(path))
}

/// How a response reaches the socket, as a mathematical value.
pub enum PlanView {
    Send(Seq<u8>),
    SendWithData(Seq<u8>),
    StreamFile { head: Seq<u8>, path: Seq<u8> },
    ZeroCopyFile { send_string: Seq<u8>, path: Seq<u8> },
    Nothing,
}

/// How a response reaches the socket.
#[derive(Debug)]
pub enum ResponsePlan {
    /// These bytes are the whole message.
    Send(Vec<u8>),
    /// These bytes are the head; the response data of the writer follows
    /// them.
    SendWithData(Vec<u8>),
    /// The file at `path` is streamed: `head` lacks only the length line
    /// and the empty line, which [`file_head`] adds once the file's length
    /// is known.
    StreamFile { head: Vec<u8>, path: Vec<u8> },
    /// The file at `path` is served through the file cache: `send_string`
    /// is the status line, and the head is built once the file is loaded.
    ZeroCopyFile { send_string: Vec<u8>, path: Vec<u8> },
    /// Nothing is written.
    Nothing,
}

impl View for ResponsePlan {
    type V = PlanView;

    open spec fn view(&self) -> PlanView {
        match self {
            ResponsePlan::Send(bytes) => PlanView::Send(bytes@),
            ResponsePlan::SendWithData(head) => PlanView::SendWithData(head@),
            ResponsePlan::StreamFile { head, path } => PlanView::StreamFile {
                head: head@,
                path: path@,
            },
            ResponsePlan::ZeroCopyFile { send_string, path } => PlanView::ZeroCopyFile {
                send_string: send_string@,
                path: path@,
            },
            ResponsePlan::Nothing => PlanView::Nothing,
        }
    }
}

/// The head of a message that carries `length` bytes: status line, header
/// fields, length line, empty line.
pub open spec fn message_head(
    version: Version,
    status: u16,
    headers: Seq<(Seq<u8>, Seq<u8>)>,
    length: nat,
) -> Seq<u8> {
    status_line(version, status) + header_block(headers) + content_length_line(length) + crlf()
}

/// The head of a streamed file response, short of its length line.
pub open spec fn stream_head(version: Version, headers: Seq<(Seq<u8>, Seq<u8>)>, path: Seq<u8>) -> Seq<
    u8,
> {
    status_line(version, 200) + file_type_lines(path, false) + header_block(
        without_content_type(headers),
    )
}

/// The head of a file response served through the cache, after the status
/// line `send_string`.
pub open spec fn cached_file_head(
    send_string: Seq<u8>,
    headers: Seq<(Seq<u8>, Seq<u8>)>,
    path: Seq<u8>,
    length: nat,
) -> Seq<u8> {
    send_string + file_type_lines(path, true) + header_block(without_content_type(headers))
        + content_length_line(length) + crlf()
}

/// The path behind the marker, or all of `body` where it bears no marker.
pub open spec fn marked_path(body: Seq<u8>) -> Seq<u8> {
    if matches_at(body, zero_copy_marker(), 0) {
        body.subrange(zero_copy_marker().len() as int, body.len() as int)
    } else {
        body
    }
}

/// The plan for a file response whose path, marked or not, is `body`.
pub open spec fn file_plan(version: Version, headers: Seq<(Seq<u8>, Seq<u8>)>, body: Seq<u8>) -> PlanView {
    if matches_at(body, zero_copy_marker(), 0) {
        PlanView::ZeroCopyFile { send_string: status_line(version, 200), path: marked_path(body) }
    } else {
        PlanView::StreamFile { head: stream_head(version, headers, body), path: body }
    }
}

/// The plan of a buffered response: a file where `use_file` is set, else
/// the byte payload where there is one, else the text.
pub open spec fn writer_plan(
    version: Version,
    status: u16,
    headers: Seq<(Seq<u8>, Seq<u8>)>,
    body: Seq<u8>,
    bytes: Seq<u8>,
    use_file: bool,
) -> PlanView {
    if use_file {
        file_plan(version, headers, body)
    } else if bytes.len() > 0 {
        PlanView::Send(message_head(version, status, headers, bytes.len()) + bytes)
    } else {
        PlanView::Send(message_head(version, status, headers, body.len()) + body)
    }
}

/// The plan of an arena-backed response: a file where `use_file` is set
/// and a path is held, else the head for the response data.
pub open spec fn arena_plan(
    version: Version,
    status: u16,
    headers: Seq<(Seq<u8>, Seq<u8>)>,
    data: Seq<u8>,
    use_file: bool,
) -> PlanView {
    if use_file {
        if data.len() > 0 {
            file_plan(version, headers, data)
        } else {
            PlanView::Nothing
        }
    } else if data.len() > 0 {
        PlanView::SendWithData(message_head(version, status, headers, data.len()))
    } else {
        PlanView::Send(message_head(version, status, headers, 0))
    }
}

/// The status line, given the reason phrase on record for the status.
pub fn status_line_from(version: Version, status: u16, reason: Option<&str>) -> (r: Vec<u8>)
    ensures
        r@ == status_line_with(
            version,
            status,
            match reason {
                Some(phrase) => Some(phrase@),
                None => None,
            },
        ),
{
    let mut out: Vec<u8> = Vec::new();
    push_str(&mut out, version.as_str());
    push_str(&mut out, " ");
    push_decimal(&mut out, status as u64);
    push_str(&mut out, " ");
    match reason {
        Some(phrase) => push_str(&mut out, phrase),
        None => push_str(&mut out, "<unknown status code>"),
    }
    push_crlf(&mut out);
    proof {
        assert(Seq::<u8>::empty() + utf8(version.text()) =~= utf8(version.text()));
    }
    out
}

/// The status line of a response.
pub fn status_line_bytes(version: Version, status: u16) -> (r: Vec<u8>)
    ensures
        r@ == status_line(version, status),
{
    status_line_from(version, status, canonical_reason(status))
}

/// Appends the header fields as lines.
pub fn push_headers(out: &mut Vec<u8>, headers: &Vec<Header>)
    ensures
        final(out)@ == old(out)@ + header_block(headers_view(headers@)),
{
    let ghost hv = headers_view(headers@);
    let mut i: usize = 0;
    assert(hv.subrange(0, 0) =~= Seq::empty());
    assert(out@ =~= old(out)@ + header_block(hv.subrange(0, 0)));
    while i < headers.len()
        invariant
            i <= headers.len(),
            hv == headers_view(headers@),
            out@ == old(out)@ + header_block(hv.subrange(0, i as int)),
        decreases headers.len() - i,
    {
        let ghost before = out@;
        push_bytes(out, headers[i].name.as_slice());
        push_str(out, ": ");
        push_bytes(out, headers[i].value.as_slice());
        push_crlf(out);
        proof {
            let next = hv.subrange(0, i + 1);
            assert(next.drop_last() =~= hv.subrange(0, i as int));
            assert(next.last() == headers@[i as int]@);
            assert(out@ =~= before + header_line(hv[i as int]));
        }
        i += 1;
    }
    assert(hv.subrange(0, headers.len() as int) =~= hv);
}

/// Whether a header name is `content-type`, in any ASCII case.
pub fn name_is_content_type(name: &[u8]) -> (r: bool)
    ensures
        r == is_content_type(name@),
{
    eq_ignore_case(name, "content-type".as_bytes())
}

/// The header fields without those named `content-type`, order kept.
pub fn remove_content_type(headers: &Vec<Header>) -> (r: Vec<Header>)
    ensures
        headers_view(r@) == without_content_type(headers_view(headers@)),
{
    let ghost hv = headers_view(headers@);
    let mut out: Vec<Header> = Vec::new();
    let mut i: usize = 0;
    assert(hv.subrange(0, 0) =~= Seq::empty());
    assert(headers_view(out@) =~= without_content_type(hv.subrange(0, 0)));
    while i < headers.len()
        invariant
            i <= headers.len(),
            hv == headers_view(headers@),
            headers_view(out@) == without_content_type(hv.subrange(0, i as int)),
        decreases headers.len() - i,
    {
        let ghost before = headers_view(out@);
        let ghost next = hv.subrange(0, i + 1);
        proof {
            assert(next.drop_last() =~= hv.subrange(0, i as int));
            assert(next.last() == headers@[i as int]@);
        }
        if !name_is_content_type(headers[i].name.as_slice()) {
            let h = Header::new(headers[i].name.as_slice(), headers[i].value.as_slice());
            out.push(h);
            assert(headers_view(out@) =~= before.push(hv[i as int]));
        }
        i += 1;
    }
    assert(hv.subrange(0, headers.len() as int) =~= hv);
    out
}

/// What follows the last `c` in `s`, as the offset where it starts.
pub fn after_last_offset(s: &[u8], c: u8) -> (r: usize)
    ensures
        r == after_last_index(s@, c, s@.len() as int),
        r <= s.len(),
{
    let mut end: usize = s.len();
    while end > 0
        invariant
            end <= s.len(),
            after_last_index(s@, c, s@.len() as int) == after_last_index(s@, c, end as int),
        decreases end,
    {
        if s[end - 1] == c {
            return end;
        }
        end -= 1;
    }
    0
}

/// The media type for a guess: the guess, or the generic binary type.
pub fn content_type_or_default(guess: Option<Vec<u8>>) -> (r: Vec<u8>)
    ensures
        r@ == content_type_or(
            match guess {
                Some(mime) => Some(mime@),
                None => None,
            },
        ),
{
    match guess {
        Some(mime) => mime,
        None => {
            let mut out: Vec<u8> = Vec::new();
            push_str(&mut out, "application/octet-stream");
            assert(out@ =~= utf8("application/octet-stream"@));
            out
        },
    }
}

/// The media type on record for a file, by the extension of its file
/// name.
pub fn guess_for_path(path: &[u8]) -> (r: Option<Vec<u8>>)
    ensures
        match r {
            Some(mime) => mime_of_path(path@) == Some(mime@),
            None => mime_of_path(path@) is None,
        },
{
    let slash = after_last_offset(path, '/' as u8);
    let name = vstd::slice::slice_subrange(path, slash, path.len());
    let dot = after_last_offset(name, '.' as u8);
    if dot <= 1 {
        None
    } else {
        guess_mime_bytes(vstd::slice::slice_subrange(name, dot, name.len()))
    }
}

/// The media type of a file, by the extension of its file name; the
/// generic binary type for a file without an extension, or with one that is
/// not on record.
pub fn get_content_type(file_name: &[u8]) -> (r: Vec<u8>)
    ensures
        r@ == content_type_of(file_name@),
{
    content_type_or_default(guess_for_path(file_name))
}

/// Appends the `Content-Type` lines of a file response, given the media
/// type on record for the file.
pub fn push_file_type_lines_with(
    out: &mut Vec<u8>,
    path: &[u8],
    cached: bool,
    guess: Option<Vec<u8>>,
)
    ensures
        final(out)@ == old(out)@ + file_type_lines_with(
            path@,
            cached,
            match guess {
                Some(mime) => Some(mime@),
                None => None,
            },
        ),
{
    let dot = after_last_offset(path, '.' as u8);
    let ext = copy_range(path, dot, path.len());
    if bytes_eq(ext.as_slice(), "zip".as_bytes()) {
        push_str(out, "Content-Type: application/zip\r\n");
        push_str(out, "content-disposition: attachment; filename=");
        if cached {
            let slash = after_last_offset(path, '/' as u8);
            let name = copy_range(path, slash, path.len());
            push_bytes(out, name.as_slice());
        } else {
            push_bytes(out, path);
        }
        push_crlf(out);
        assert(final(out)@ =~= old(out)@ + file_type_lines_with(
            path@,
            cached,
            match guess {
                Some(mime) => Some(mime@),
                None => None,
            },
        ));
    } else if cached && bytes_eq(ext.as_slice(), "json".as_bytes()) {
        push_str(out, "Content-Type: application/json\r\n");
    } else {
        let mime = content_type_or_default(guess);
        push_str(out, "Content-Type: ");
        push_bytes(out, mime.as_slice());
        push_crlf(out);
        assert(final(out)@ =~= old(out)@ + file_type_lines_with(
            path@,
            cached,
            match guess {
                Some(mime) => Some(mime@),
                None => None,
            },
        ));
    }
}

/// Appends the `Content-Type` lines of a file response.
pub fn push_file_type_lines(out: &mut Vec<u8>, path: &[u8], cached: bool)
    ensures
        final(out)@ == old(out)@ + file_type_lines(path@, cached),
{
    push_file_type_lines_with(out, path, cached, guess_for_path(path));
}

/// The head of a message that carries `length` bytes.
pub fn message_head_bytes(version: Version, status: u16, headers: &Vec<Header>, length: usize) -> (r:
    Vec<u8>)
    ensures
        r@ == message_head(version, status, headers_view(headers@), length as nat),
{
    let mut out = status_line_bytes(version, status);
    push_headers(&mut out, headers);
    push_content_length(&mut out, length as u64);
    push_crlf(&mut out);
    out
}

/// Completes the head of a streamed file response, now that the file's
/// length is known: the length line and the empty line are added.
pub fn file_head(head: Vec<u8>, content_length: u64) -> (r: Vec<u8>)
    ensures
        r@ == head@ + content_length_line(content_length as nat) + crlf(),
{
    let mut out = head;
    push_content_length(&mut out, content_length);
    push_crlf(&mut out);
    out
}

/// The largest buffer that a file is streamed through: five mebibytes.
pub const STREAM_BUFFER_LIMIT: u64 = 5242880;

/// The size of the buffer through which a file of `content_length` bytes
/// is streamed: the file's length, capped at [`STREAM_BUFFER_LIMIT`].
pub fn stream_buffer_size(content_length: u64) -> (r: usize)
    ensures
        r == if content_length < STREAM_BUFFER_LIMIT {
            content_length
        } else {
            STREAM_BUFFER_LIMIT
        },
{
    if content_length < STREAM_BUFFER_LIMIT {
        content_length as usize
    } else {
        STREAM_BUFFER_LIMIT as usize
    }
}

/// The plan for a file response whose path, marked or not, is `body`.
fn plan_file(version: Version, headers: &Vec<Header>, body: &[u8]) -> (r: ResponsePlan)
    ensures
        r@ == file_plan(version, headers_view(headers@), body@),
{
    let marker: &[u8] = "__ZERO_COPY_FILE__:".as_bytes();
    if occurs_at(body, marker, 0) {
        let send_string = status_line_bytes(version, 200);
        let path = copy_range(body, marker.len(), body.len());
        ResponsePlan::ZeroCopyFile { send_string, path }
    } else {
        let mut head = status_line_bytes(version, 200);
        push_file_type_lines(&mut head, body, false);
        let kept = remove_content_type(headers);
        push_headers(&mut head, &kept);
        let path = copy_range(body, 0, body.len());
        assert(body@.subrange(0, body@.len() as int) =~= body@);
        ResponsePlan::StreamFile { head, path }
    }
}

/// The head of a file response served through the cache.
fn cached_head(send_string: Vec<u8>, headers: &Vec<Header>, path: &[u8], content_length: usize) -> (r:
    Vec<u8>)
    ensures
        r@ == cached_file_head(
            send_string@,
            headers_view(headers@),
            path@,
            content_length as nat,
        ),
{
    let mut out = send_string;
    push_file_type_lines(&mut out, path, true);
    let kept = remove_content_type(headers);
    push_headers(&mut out, &kept);
    push_content_length(&mut out, content_length as u64);
    push_crlf(&mut out);
    out
}

/// The payload of a buffered response: text, bytes, or the path of a file.
#[derive(Debug)]
pub struct Writer {
    pub body: String,
    pub bytes: Vec<u8>,
    pub use_file: bool,
    pub options: Options,
}

/// The one kind of payload that a response carries.
#[derive(Clone, Copy, Debug, PartialEq, Eq, Structural)]
pub enum PayloadKind {
    /// Nothing at all.
    Empty,
    /// Text held in memory.
    Text,
    /// Bytes held in memory.
    Bytes,
    /// A file that is streamed.
    File,
    /// A file that is served through the file cache.
    ZeroCopyFile,
}

/// The kind of payload that a writer carries: a file where `use_file` is
/// set, marked for the cache or not; else the bytes where there are any; else
/// the text where there is any.
pub open spec fn payload_kind_of(body: Seq<u8>, bytes: Seq<u8>, use_file: bool) -> PayloadKind {
    if use_file {
        if matches_at(body, zero_copy_marker(), 0) {
            PayloadKind::ZeroCopyFile
        } else {
            PayloadKind::File
        }
    } else if bytes.len() > 0 {
        PayloadKind::Bytes
    } else if body.len() > 0 {
        PayloadKind::Text
    } else {
        PayloadKind::Empty
    }
}

/// The size up to which the buffered flavour serves a file through the
/// cache: ten mebibytes.
pub const WRITER_ZERO_COPY_LIMIT: u64 = 10485760;

impl Writer {
    /// An empty payload.
    pub fn new(options: Options) -> (r: Writer)
        ensures
            r.body@.len() == 0,
            r.bytes@.len() == 0,
            !r.use_file,
            r.options == options,
    {
        Writer { body: String::new(), bytes: Vec::new(), use_file: false, options }
    }

    /// The one kind of payload that the writer carries.
    pub fn payload_kind(&self) -> (r: PayloadKind)
        ensures
            r == payload_kind_of(utf8(self.body@), self.bytes@, self.use_file),
    {
        let body: &[u8] = self.body.as_str().as_bytes();
        if self.use_file {
            if occurs_at(body, "__ZERO_COPY_FILE__:".as_bytes(), 0) {
                PayloadKind::ZeroCopyFile
            } else {
                PayloadKind::File
            }
        } else if self.bytes.len() > 0 {
            PayloadKind::Bytes
        } else if body.len() > 0 {
            PayloadKind::Text
        } else {
            PayloadKind::Empty
        }
    }

    /// Makes the file at `file_path` the payload. `file_size` is the size
    /// of the file where it could be read; a file of at most
    /// [`WRITER_ZERO_COPY_LIMIT`] bytes is marked for the file cache.
    pub fn response_file(&mut self, file_path: &str, file_size: Option<u64>)
        ensures
            final(self).use_file,
            final(self).bytes == old(self).bytes,
            final(self).options == old(self).options,
            final(self).body@ == if file_size matches Some(n) && n <= WRITER_ZERO_COPY_LIMIT {
                "__ZERO_COPY_FILE__:"@ + file_path@
            } else {
                file_path@
            },
    {
        let cached = match file_size {
            Some(n) => n <= WRITER_ZERO_COPY_LIMIT,
            None => false,
        };
        let mut body = String::new();
        if cached {
            body.append("__ZERO_COPY_FILE__:");
        }
        body.append(file_path);
        proof {
            assert(Seq::<char>::empty() + file_path@ =~= file_path@);
            assert(Seq::<char>::empty() + "__ZERO_COPY_FILE__:"@ + file_path@
                =~= "__ZERO_COPY_FILE__:"@ + file_path@);
        }
        self.body = body;
        self.use_file = true;
    }
}

/// A response under construction: status, version, header fields and a
/// payload.
#[derive(Debug)]
pub struct Response<W> {
    pub status: u16,
    pub version: Version,
    pub headers: Vec<Header>,
    pub body: W,
}

impl<W> Response<W> {
    /// The response that answers a request of `version` until a handler
    /// says otherwise: status 400, `content-type: application/json`.
    pub fn new(version: Version, body: W) -> (r: Response<W>)
        ensures
            r.status == 400,
            r.version == version,
            r.body == body,
            headers_view(r.headers@) == seq![
                (utf8("content-type"@), utf8("application/json"@)),
            ],
    {
        let mut headers: Vec<Header> = Vec::new();
        headers.push(Header::new("content-type".as_bytes(), "application/json".as_bytes()));
        assert(headers_view(headers@) =~= seq![(utf8("content-type"@), utf8("application/json"@))]);
        Response { status: 400, version, headers, body }
    }
}

/// Emission of a buffered response.
pub trait ResponseUtil {
    /// Decides how the response reaches the socket.
    fn responser(&mut self) -> ResponsePlan;

    /// The head of a file response that is served through the file cache,
    /// once the file of `content_length` bytes is loaded.
    fn send_zero_copy_file(&mut self, send_string: Vec<u8>, content_length: usize) -> Vec<u8>;
}

impl ResponseUtil for Response<Writer> {
    /// Decides how the response reaches the socket. A file response has
    /// status 200 and loses its `content-type` fields, which the file's
    /// own type replaces.
    fn responser(&mut self) -> (r: ResponsePlan)
        ensures
            r@ == writer_plan(
                old(self).version,
                old(self).status,
                headers_view(old(self).headers@),
                utf8(old(self).body.body@),
                old(self).body.bytes@,
                old(self).body.use_file,
            ),
            final(self).version == old(self).version,
            final(self).body == old(self).body,
            final(self).status == if old(self).body.use_file {
                200
            } else {
                old(self).status
            },
            headers_view(final(self).headers@) == if old(self).body.use_file {
                without_content_type(headers_view(old(self).headers@))
            } else {
                headers_view(old(self).headers@)
            },
    {
        if self.body.use_file {
            let plan = plan_file(self.version, &self.headers, self.body.body.as_str().as_bytes());
            let kept = remove_content_type(&self.headers);
            self.status = 200;
            self.headers = kept;
            plan
        } else if self.body.bytes.len() > 0 {
            let mut out = message_head_bytes(
                self.version,
                self.status,
                &self.headers,
                self.body.bytes.len(),
            );
            push_bytes(&mut out, self.body.bytes.as_slice());
            ResponsePlan::Send(out)
        } else {
            let text: &[u8] = self.body.body.as_str().as_bytes();
            let mut out = message_head_bytes(self.version, self.status, &self.headers, text.len());
            push_bytes(&mut out, text);
            ResponsePlan::Send(out)
        }
    }

    /// The head of a file response that is served through the file cache:
    /// `send_string`, the file's type, the header fields without
    /// `content-type`, the length line and the empty line. The file is the
    /// one that the body names behind the marker.
    fn send_zero_copy_file(&mut self, send_string: Vec<u8>, content_length: usize) -> (r: Vec<u8>)
        ensures
            r@ == cached_file_head(
                send_string@,
                headers_view(old(self).headers@),
                marked_path(utf8(old(self).body.body@)),
                content_length as nat,
            ),
            final(self).version == old(self).version,
            final(self).status == old(self).status,
            final(self).body == old(self).body,
            headers_view(final(self).headers@) == without_content_type(
                headers_view(old(self).headers@),
            ),
    {
        let body: &[u8] = self.body.body.as_str().as_bytes();
        let marker: &[u8] = "__ZERO_COPY_FILE__:".as_bytes();
        let start: usize = if occurs_at(body, marker, 0) {
            marker.len()
        } else {
            0
        };
        let path = copy_range(body, start, body.len());
        assert(body@.subrange(0, body@.len() as int) =~= body@);
        let head = cached_head(send_string, &self.headers, path.as_slice(), content_length);
        let kept = remove_content_type(&self.headers);
        self.headers = kept;
        head
    }
}

/// The payload of an arena-backed response: a view of bytes that were
/// copied into the connection's arena.
pub struct ArenaWriter<'a> {
    pub arena: &'a Bump,
    pub response_data: &'a [u8],
    pub use_file: bool,
    pub options: Options,
}

impl<'a> ArenaWriter<'a> {
    /// The response data, as a mathematical value.
    pub open spec fn data(&self) -> Seq<u8> {
        self.response_data@
    }

    /// An empty payload whose data will live in `arena`.
    pub fn new(arena: &'a Bump, options: Options) -> (r: ArenaWriter<'a>)
        ensures
            r.data().len() == 0,
            !r.use_file,
            r.options == options,
    {
        let none: Vec<u8> = Vec::new();
        let empty: &'a [u8] = copy_into(arena, none.as_slice());
        ArenaWriter { arena, response_data: empty, use_file: false, options }
    }

    /// Makes `data` the payload: it is copied into the arena once.
    pub fn set_arena_response(&mut self, data: &str) -> (r: bool)
        ensures
            r,
            final(self).data() == utf8(data@),
            final(self).use_file == old(self).use_file,
            final(self).options == old(self).options,
    {
        self.response_data = copy_into(self.arena, data.as_bytes());
        true
    }

    /// The one kind of payload that the writer carries.
    pub fn payload_kind(&self) -> (r: PayloadKind)
        ensures
            r == payload_kind_of(self.data(), self.data(), self.use_file),
    {
        if self.use_file {
            if occurs_at(self.response_data, "__ZERO_COPY_FILE__:".as_bytes(), 0) {
                PayloadKind::ZeroCopyFile
            } else {
                PayloadKind::File
            }
        } else if self.response_data.len() > 0 {
            PayloadKind::Bytes
        } else {
            PayloadKind::Empty
        }
    }

    /// The response data.
    pub fn get_response_data(&self) -> (r: &[u8])
        ensures
            r@ == self.data(),
    {
        self.response_data
    }

    /// The response data as text, or `None` where it is not well-formed
    /// UTF-8.
    pub fn get_response_str(&self) -> (r: Option<&str>)
        ensures
            r.is_some() <==> vstd::utf8::valid_utf8(self.data()),
            r matches Some(s) ==> utf8(s@) == self.data(),
    {
        as_text(self.response_data)
    }

    /// Makes the file at `file_path` the payload. `file_size` is the size
    /// of the file where it could be read; a file no larger than the
    /// configured threshold is marked for the file cache.
    pub fn response_file(&mut self, file_path: &str, file_size: Option<u64>)
        ensures
            final(self).use_file,
            final(self).options == old(self).options,
            final(self).data() == if file_size matches Some(n) && n
                <= old(self).options.zero_copy_threshold {
                utf8("__ZERO_COPY_FILE__:"@) + utf8(file_path@)
            } else {
                utf8(file_path@)
            },
    {
        let cached = match file_size {
            Some(n) => n <= self.options.zero_copy_threshold as u64,
            None => false,
        };
        let mut body: Vec<u8> = Vec::new();
        if cached {
            push_str(&mut body, "__ZERO_COPY_FILE__:");
        }
        push_str(&mut body, file_path);
        proof {
            assert(Seq::<u8>::empty() + utf8(file_path@) =~= utf8(file_path@));
            assert(Seq::<u8>::empty() + utf8("__ZERO_COPY_FILE__:"@) + utf8(file_path@) =~= utf8(
                "__ZERO_COPY_FILE__:"@,
            ) + utf8(file_path@));
        }
        self.response_data = copy_into(self.arena, body.as_slice());
        self.use_file = true;
    }
}

/// Emission of an arena-backed response.
pub trait ResponseUtilArena {
    /// Decides how the response reaches the socket.
    fn responser_arena(&mut self) -> ResponsePlan;

    /// The head of a file response that is served through the file cache,
    /// once the file of `content_length` bytes is loaded.
    fn send_arena_zero_copy_file(
        &mut self,
        file_path: &[u8],
        send_string: Vec<u8>,
        content_length: usize,
    ) -> Vec<u8>;
}

impl<'a> ResponseUtilArena for Response<ArenaWriter<'a>> {
    /// Decides how the response reaches the socket. A file response has
    /// status 200 and loses its `content-type` fields, which the file's
    /// own type replaces.
    fn responser_arena(&mut self) -> (r: ResponsePlan)
        ensures
            r@ == arena_plan(
                old(self).version,
                old(self).status,
                headers_view(old(self).headers@),
                old(self).body.data(),
                old(self).body.use_file,
            ),
            final(self).version == old(self).version,
            final(self).body == old(self).body,
            final(self).status == if old(self).body.use_file {
                200
            } else {
                old(self).status
            },
            headers_view(final(self).headers@) == if old(self).body.use_file {
                without_content_type(headers_view(old(self).headers@))
            } else {
                headers_view(old(self).headers@)
            },
    {
        let data: &[u8] = self.body.get_response_data();
        if self.body.use_file {
            let plan = if data.len() > 0 {
                plan_file(self.version, &self.headers, data)
            } else {
                ResponsePlan::Nothing
            };
            let kept = remove_content_type(&self.headers);
            self.status = 200;
            self.headers = kept;
            plan
        } else if data.len() > 0 {
            ResponsePlan::SendWithData(
                message_head_bytes(self.version, self.status, &self.headers, data.len()),
            )
        } else {
            ResponsePlan::Send(message_head_bytes(self.version, self.status, &self.headers, 0))
        }
    }

    /// The head of a response that serves the file at `file_path` through
    /// the file cache: `send_string`, the file's type, the header fields
    /// without `content-type`, the length line and the empty line.
    fn send_arena_zero_copy_file(
        &mut self,
        file_path: &[u8],
        send_string: Vec<u8>,
        content_length: usize,
    ) -> (r: Vec<u8>)
        ensures
            r@ == cached_file_head(
                send_string@,
                headers_view(old(self).headers@),
                file_path@,
                content_length as nat,
            ),
            final(self).version == old(self).version,
            final(self).status == old(self).status,
            final(self).body == old(self).body,
            headers_view(final(self).headers@) == without_content_type(
                headers_view(old(self).headers@),
            ),
    {
        let head = cached_head(send_string, &self.headers, file_path, content_length);
        let kept = remove_content_type(&self.headers);
        self.headers = kept;
        head
    }
}

} // verus!
