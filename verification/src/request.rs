//! The message framer: from the raw bytes of a message and the offset at
//! which its header block ends to a structured request, in a flavour that
//! owns its body and in one that views it in the connection's arena.

use vstd::prelude::*;
use vstd::slice::slice_subrange;
use bumpalo::Bump;
use crate::arena::ArenaBody;
use crate::options::{Options, PeerAddr};
use crate::protocol::{headers_view, Header, Method, MethodView, Version};
use crate::response::{ArenaWriter, Response, Writer};
use crate::scanner::{find_header_end_simd, first_header_end, header_delimiter};
use crate::search::{
    find_from, first_match, lemma_first_match_from, piece_spans, spans_of, spans_within, split,
    split_on,
};
use crate::text::{copy_range, crlf, lower_range, lower_seq, utf8, CR, LF};

verus! {

/// Whether the `http` crate takes a token as a request target.
pub uninterp spec fn uri_accepts(token: Seq<u8>) -> bool;

/// What `String::from_utf8_lossy` makes of bytes.
pub uninterp spec fn utf8_lossy(bytes: Seq<u8>) -> Seq<char>;

/// A character that may stand in a method token.
pub open spec fn is_tchar(b: u8) -> bool {
    ||| '0' as u8 <= b <= '9' as u8
    ||| 'A' as u8 <= b <= 'Z' as u8
    ||| 'a' as u8 <= b <= 'z' as u8
    ||| b == '!' as u8
    ||| b == '#' as u8
    ||| b == '$' as u8
    ||| b == '%' as u8
    ||| b == '&' as u8
    ||| b == '\'' as u8
    ||| b == '*' as u8
    ||| b == '+' as u8
    ||| b == '-' as u8
    ||| b == '.' as u8
    ||| b == '^' as u8
    ||| b == '_' as u8
    ||| b == '`' as u8
    ||| b == '|' as u8
    ||| b == '~' as u8
}

/// A method token: at least one character, each of them a token character.
pub open spec fn is_method_token(token: Seq<u8>) -> bool {
    token.len() > 0 && forall|i: int| 0 <= i < token.len() ==> is_tchar(#[trigger] token[i])
}

/// Whether a byte may stand in a method token.
pub fn token_char(b: u8) -> (r: bool)
    ensures
        r == is_tchar(b),
{
    (b >= '0' as u8 && b <= '9' as u8) || (b >= 'A' as u8 && b <= 'Z' as u8) || (b >= 'a' as u8
        && b <= 'z' as u8) || b == '!' as u8 || b == '#' as u8 || b == '$' as u8 || b == '%' as u8
        || b == '&' as u8 || b == '\'' as u8 || b == '*' as u8 || b == '+' as u8 || b == '-' as u8
        || b == '.' as u8 || b == '^' as u8 || b == '_' as u8 || b == '`' as u8 || b == '|' as u8
        || b == '~' as u8
}

/// Whether a token names a method: the standard methods do, and so does
/// every other non-empty run of token characters.
pub fn method_accepted(token: &[u8]) -> (ok: bool)
    ensures
        ok == is_method_token(token@),
{
    if token.len() == 0 {
        return false;
    }
    let mut i: usize = 0;
    while i < token.len()
        invariant
            i <= token@.len(),
            forall|j: int| 0 <= j < i ==> is_tchar(#[trigger] token@[j]),
        decreases token@.len() - i,
    {
        if !token_char(token[i]) {
            return false;
        }
        i += 1;
    }
    true
}

/// `http::Uri::try_from`: whether it takes the token as a request target.
#[verifier::external_body]
pub(crate) fn uri_accepted(token: &[u8]) -> (ok: bool)
    ensures
        ok == uri_accepts(token@),
{
    http::Uri::try_from(token).is_ok()
}

/// `String::from_utf8_lossy`: the bytes as text, with each ill-formed
/// sequence replaced; well-formed bytes come back as they are.
#[verifier::external_body]
pub(crate) fn text_from_utf8_lossy(bytes: &[u8]) -> (r: String)
    ensures
        r@ == utf8_lossy(bytes@),
        vstd::utf8::valid_utf8(bytes@) ==> utf8(r@) == bytes@,
{
    String::from_utf8_lossy(bytes).into_owned()
}

/// The separator of the tokens of a request line.
pub open spec fn space() -> Seq<u8> {
    seq![' ' as u8]
}

/// The separator of a header name and its value.
pub open spec fn colon_space() -> Seq<u8> {
    seq![':' as u8, ' ' as u8]
}

/// The request target of a request line that names none that can be read.
pub open spec fn default_uri() -> Seq<u8> {
    seq!['/' as u8]
}

/// The `k`-th token of a line, if it has that many.
pub open spec fn token(line: Seq<u8>, k: int) -> Option<Seq<u8>> {
    let tokens = split(line, space());
    if 0 <= k < tokens.len() {
        Some(tokens[k])
    } else {
        None
    }
}

/// The request line of a message, as a mathematical value.
pub struct RequestLineView {
    pub method: MethodView,
    pub uri: Seq<u8>,
    pub version: Version,
}

/// What a request line says, given whether its first token is taken as a
/// method and its second as a request target: the method of the first
/// token, else `GET`; the second token, else `/`; the version that the third
/// token names, else HTTP/1.1.
pub open spec fn request_line_with(line: Seq<u8>, method_ok: bool, uri_ok: bool) -> RequestLineView {
    RequestLineView {
        method: match token(line, 0) {
            Some(t) => if method_ok {
                MethodView::of_token(t)
            } else {
                MethodView::Get
            },
            None => MethodView::Get,
        },
        uri: match token(line, 1) {
            Some(t) => if uri_ok {
                t
            } else {
                default_uri()
            },
            None => default_uri(),
        },
        version: match token(line, 2) {
            Some(t) => Version::of_token(t),
            None => Version::Http11,
        },
    }
}

/// Whether the first token of a line is a method token.
pub open spec fn method_ok(line: Seq<u8>) -> bool {
    token(line, 0) matches Some(t) && is_method_token(t)
}

/// Whether the second token of a line is taken as a request target.
pub open spec fn uri_ok(line: Seq<u8>) -> bool {
    token(line, 1) matches Some(t) && uri_accepts(t)
}

/// What a request line says.
pub open spec fn request_line_of(line: Seq<u8>) -> RequestLineView {
    request_line_with(line, method_ok(line), uri_ok(line))
}

/// The header field of a line: the line is cut at its first `": "`, and
/// the name is lower-cased. A line without `": "` holds none.
pub open spec fn header_of_line(line: Seq<u8>) -> Option<(Seq<u8>, Seq<u8>)> {
    match first_match(line, colon_space()) {
        Some(p) => Some((lower_seq(line.subrange(0, p)), line.subrange(p + 2, line.len() as int))),
        None => None,
    }
}

/// The header fields of lines, in order; lines that hold none are skipped.
pub open spec fn headers_of_lines(lines: Seq<Seq<u8>>) -> Seq<(Seq<u8>, Seq<u8>)>
    decreases lines.len(),
{
    if lines.len() == 0 {
        Seq::empty()
    } else {
        match header_of_line(lines.last()) {
            Some(h) => headers_of_lines(lines.drop_last()).push(h),
            None => headers_of_lines(lines.drop_last()),
        }
    }
}

/// The head of a request, as a mathematical value.
pub struct HeadView {
    pub line: RequestLineView,
    pub headers: Seq<(Seq<u8>, Seq<u8>)>,
}

/// The lines of a header block.
pub open spec fn lines_of(block: Seq<u8>) -> Seq<Seq<u8>> {
    split(block, crlf())
}

/// What a header block says: its first line is the request line, and each
/// further line is a header field or is skipped.
pub open spec fn head_of(block: Seq<u8>) -> HeadView {
    let lines = lines_of(block);
    HeadView {
        line: request_line_of(lines[0]),
        headers: headers_of_lines(lines.subrange(1, lines.len() as int)),
    }
}

/// The request line of a message.
#[derive(Debug)]
pub struct RequestLine {
    pub method: Method,
    pub uri: Vec<u8>,
    pub version: Version,
}

impl View for RequestLine {
    type V = RequestLineView;

    open spec fn view(&self) -> RequestLineView {
        RequestLineView { method: self.method@, uri: self.uri@, version: self.version }
    }
}

/// The head of a request: request line and header fields. The header
/// fields stand in the order in which they arrived; a name that occurs twice
/// is kept twice, and no field is refused for the bytes that it holds.
#[derive(Debug)]
pub struct RequestHead {
    pub method: Method,
    pub uri: Vec<u8>,
    pub version: Version,
    pub headers: Vec<Header>,
}

impl View for RequestHead {
    type V = HeadView;

    open spec fn view(&self) -> HeadView {
        HeadView {
            line: RequestLineView { method: self.method@, uri: self.uri@, version: self.version },
            headers: headers_view(self.headers@),
        }
    }
}

/// The token that a span names, where the span is among `spans`.
fn token_at<'a>(line: &'a [u8], spans: &Vec<(usize, usize)>, k: usize) -> (r: &'a [u8])
    requires
        spans_of(spans@) == piece_spans(line@, space(), 0),
        spans_within(spans@, line@.len() as int),
        k < spans@.len(),
    ensures
        token(line@, k as int) == Some(r@),
{
    let span = spans[k];
    assert(spans_of(spans@)[k as int] == (span.0 as int, span.1 as int));
    slice_subrange(line, span.0, span.1)
}

/// Reads a request line, given whether its first token is taken as a
/// method and its second as a request target.
pub fn request_line_from(line: &[u8], method_ok: bool, uri_ok: bool) -> (r: RequestLine)
    ensures
        r@ == request_line_with(line@, method_ok, uri_ok),
{
    let sp: [u8; 1] = [' ' as u8];
    assert(sp@ =~= space());
    let spans = split_on(line, sp.as_slice());
    let method = if method_ok {
        Method::from_token(token_at(line, &spans, 0))
    } else {
        Method::Get
    };
    let uri = if spans.len() > 1 && uri_ok {
        let t = token_at(line, &spans, 1);
        assert(t@.subrange(0, t@.len() as int) =~= t@);
        copy_range(t, 0, t.len())
    } else {
        let mut slash: Vec<u8> = Vec::new();
        slash.push('/' as u8);
        assert(slash@ =~= default_uri());
        slash
    };
    let version = if spans.len() > 2 {
        Version::from_token(token_at(line, &spans, 2))
    } else {
        Version::Http11
    };
    RequestLine { method, uri, version }
}

/// Reads a request line.
pub fn parse_request_line(line: &[u8]) -> (r: RequestLine)
    ensures
        r@ == request_line_of(line@),
{
    let sp: [u8; 1] = [' ' as u8];
    assert(sp@ =~= space());
    let spans = split_on(line, sp.as_slice());
    let method_ok = method_accepted(token_at(line, &spans, 0));
    let uri_ok = spans.len() > 1 && uri_accepted(token_at(line, &spans, 1));
    request_line_from(line, method_ok, uri_ok)
}

/// Reads the header field of a line, if it holds one.
pub fn parse_header_line(line: &[u8]) -> (r: Option<Header>)
    ensures
        match r {
            Some(h) => header_of_line(line@) == Some(h@),
            None => header_of_line(line@) is None,
        },
{
    let sep: [u8; 2] = [':' as u8, ' ' as u8];
    assert(sep@ =~= colon_space());
    match find_from(line, sep.as_slice(), 0) {
        Some(p) => {
            let name = lower_range(line, 0, p);
            let value = copy_range(line, p + 2, line.len());
            Some(Header { name, value })
        },
        None => None,
    }
}

/// Reads a header block: the request line and the header fields.
pub fn parse_head(block: &[u8]) -> (r: RequestHead)
    ensures
        r@ == head_of(block@),
{
    let end: [u8; 2] = [CR, LF];
    assert(end@ =~= crlf());
    let spans = split_on(block, end.as_slice());
    let ghost lines = lines_of(block@);
    let first = spans[0];
    assert(spans_of(spans@)[0] == (first.0 as int, first.1 as int));
    let line = parse_request_line(slice_subrange(block, first.0, first.1));
    let mut headers: Vec<Header> = Vec::new();
    let mut k: usize = 1;
    assert(lines.subrange(1, 1) =~= Seq::empty());
    while k < spans.len()
        invariant
            1 <= k <= spans.len(),
            lines == lines_of(block@),
            lines.len() == spans@.len(),
            spans_of(spans@) == piece_spans(block@, crlf(), 0),
            spans_within(spans@, block@.len() as int),
            headers_view(headers@) == headers_of_lines(lines.subrange(1, k as int)),
        decreases spans.len() - k,
    {
        let span = spans[k];
        assert(spans_of(spans@)[k as int] == (span.0 as int, span.1 as int));
        let ghost before = headers_view(headers@);
        let ghost next = lines.subrange(1, k + 1);
        proof {
            assert(next.drop_last() =~= lines.subrange(1, k as int));
            assert(next.last() == lines[k as int]);
        }
        match parse_header_line(slice_subrange(block, span.0, span.1)) {
            Some(h) => {
                headers.push(h);
                assert(headers_view(headers@) =~= before.push(h@));
            },
            None => {},
        }
        k += 1;
    }
    RequestHead { method: line.method, uri: line.uri, version: line.version, headers }
}

/// A body that owns its bytes.
#[derive(Debug)]
pub struct Body {
    pub bytes: Vec<u8>,
    pub body: String,
    pub len: usize,
    pub ip: Option<PeerAddr>,
}

/// A request: its head and its body.
#[derive(Debug)]
pub struct Request<B> {
    pub head: RequestHead,
    pub body: B,
}

/// The offset at which the header block of `data` ends when the message
/// is framed on its own: behind the first `\r\n\r\n`, or at the end of the
/// data where there is none.
pub open spec fn own_header_end(data: Seq<u8>) -> int {
    match first_header_end(data) {
        Some(p) => p + 4,
        None => data.len() as int,
    }
}

/// A header-end offset, held within the data.
pub open spec fn clamp(offset: int, len: int) -> int {
    if offset <= len {
        offset
    } else {
        len
    }
}

/// Frames a message into a request that owns a copy of its body. The
/// header block is what stands before `header_end`, the body what stands
/// from there on; an offset beyond the end of the buffer is taken as its
/// end.
pub fn frame_request(buffer: &[u8], header_end: usize) -> (r: Request<Body>)
    ensures
        r.head@ == head_of(buffer@.subrange(0, clamp(header_end as int, buffer@.len() as int))),
        r.body.bytes@ == buffer@.subrange(
            clamp(header_end as int, buffer@.len() as int),
            buffer@.len() as int,
        ),
        r.body.len == r.body.bytes@.len(),
        r.body.body@.len() == 0,
        r.body.ip is None,
{
    let end: usize = if header_end <= buffer.len() {
        header_end
    } else {
        buffer.len()
    };
    let head = parse_head(slice_subrange(buffer, 0, end));
    let bytes = copy_range(buffer, end, buffer.len());
    let len: usize = bytes.len();
    Request { head, body: Body { bytes, body: String::new(), len, ip: None } }
}

/// Frames the bytes of one message on their own: the header block ends
/// behind the first `\r\n\r\n`.
pub fn get_request(bytes: &[u8]) -> (r: Request<Body>)
    ensures
        r.head@ == head_of(bytes@.subrange(0, own_header_end(bytes@))),
        r.body.bytes@ == bytes@.subrange(own_header_end(bytes@), bytes@.len() as int),
        r.body.len == r.body.bytes@.len(),
        r.body.body@.len() == 0,
        r.body.ip is None,
{
    proof {
        lemma_first_match_from(bytes@, header_delimiter(), 0);
        assert(header_delimiter().len() == 4);
    }
    let len: usize = bytes.len();
    let header_end: usize = match find_header_end_simd(bytes) {
        Some(p) => p + 4,
        None => len,
    };
    frame_request(bytes, header_end)
}

/// Frames a message that lies in the arena: the request views its body
/// there.
pub fn parse_http_request_arena<'a>(body: ArenaBody<'a>) -> (r: Request<ArenaBody<'a>>)
    ensures
        r.head@ == head_of(body.headers()),
        r.body.raw() == body.raw(),
        r.body.header_end() == body.header_end(),
        r.body.body_start() == body.body_start(),
        r.body.peer() is None,
{
    let head = parse_head(body.get_headers());
    let mut body = body;
    body.set_ip(None);
    Request { head, body }
}

/// Idempotent framing: framing the same buffer at the same offset twice
/// gives requests that are equal field for field.
pub proof fn lemma_framing_idempotent(
    buffer: &[u8],
    header_end: usize,
    first: Request<Body>,
    second: Request<Body>,
)
    requires
        call_ensures(frame_request, (buffer, header_end), first),
        call_ensures(frame_request, (buffer, header_end), second),
    ensures
        first.head@ == second.head@,
        first.body.bytes@ == second.body.bytes@,
        first.body.len == second.body.len,
        first.body.body@ == second.body.body@,
        first.body.ip == second.body.ip,
{
    assert(first.body.body@ =~= second.body.body@);
}

/// The two flavours agree: a message framed into an owned request and the
/// same message framed in the arena, with the body starting where the header
/// block ends, have the same method, target, version, header fields and body
/// bytes.
pub proof fn lemma_flavours_agree<'a>(
    buffer: &[u8],
    header_end: usize,
    arena_body: ArenaBody<'a>,
    owned: Request<Body>,
    viewed: Request<ArenaBody<'a>>,
)
    requires
        header_end <= buffer@.len(),
        arena_body.raw() == buffer@,
        arena_body.header_end() == header_end,
        arena_body.body_start() == header_end,
        call_ensures(frame_request, (buffer, header_end), owned),
        call_ensures(parse_http_request_arena, (arena_body,), viewed),
    ensures
        owned.head@ == viewed.head@,
        owned.body.bytes@ == viewed.body.body(),
{
}

impl Body {
    /// The body as text: on first use the bytes are decoded, ill-formed
    /// sequences replaced, and the text is kept.
    pub fn get_text(&mut self) -> (r: String)
        ensures
            final(self).bytes == old(self).bytes,
            final(self).len == old(self).len,
            final(self).ip == old(self).ip,
            final(self).body@ == if old(self).len > 0 {
                utf8_lossy(old(self).bytes@)
            } else {
                old(self).body@
            },
            r@ == final(self).body@,
    {
        if self.len > 0 {
            self.body = text_from_utf8_lossy(self.bytes.as_slice());
        }
        self.body.clone()
    }
}

/// Tags a framed request with the peer's address and pairs it with the
/// response that answers it until a handler says otherwise.
pub fn get_parse_result_from_request(request: Request<Body>, options: &Options) -> (r: (
    Request<Body>,
    Response<Writer>,
))
    ensures
        r.0.head == request.head,
        r.0.body.bytes == request.body.bytes,
        r.0.body.body == request.body.body,
        r.0.body.len == request.body.len,
        r.0.body.ip == options.current_client_addr,
        r.1.status == 400,
        r.1.version == request.head.version,
        headers_view(r.1.headers@) == seq![(utf8("content-type"@), utf8("application/json"@))],
        r.1.body.options == *options,
        !r.1.body.use_file,
        r.1.body.body@.len() == 0,
        r.1.body.bytes@.len() == 0,
{
    let mut request = request;
    request.body.ip = options.current_client_addr;
    let response = Response::new(request.head.version, Writer::new(options.clone()));
    (request, response)
}

/// Tags a request framed in the arena with the peer's address and pairs
/// it with a buffered response.
pub fn get_parse_result_arena<'a>(request: Request<ArenaBody<'a>>, options: &Options) -> (r: (
    Request<ArenaBody<'a>>,
    Response<Writer>,
))
    ensures
        r.0.head == request.head,
        r.0.body.raw() == request.body.raw(),
        r.0.body.header_end() == request.body.header_end(),
        r.0.body.body_start() == request.body.body_start(),
        r.0.body.peer() == options.current_client_addr,
        r.1.status == 400,
        r.1.version == request.head.version,
        headers_view(r.1.headers@) == seq![(utf8("content-type"@), utf8("application/json"@))],
        r.1.body.options == *options,
        !r.1.body.use_file,
        r.1.body.body@.len() == 0,
        r.1.body.bytes@.len() == 0,
{
    let mut request = request;
    request.body.set_ip(options.current_client_addr);
    let response = Response::new(request.head.version, Writer::new(options.clone()));
    (request, response)
}

/// Tags a request framed in the arena with the peer's address and pairs
/// it with a response whose data will live in `arena`.
pub fn get_parse_result_arena_writer<'a>(
    request: Request<ArenaBody<'a>>,
    arena: &'a Bump,
    options: &Options,
) -> (r: (Request<ArenaBody<'a>>, Response<ArenaWriter<'a>>))
    ensures
        r.0.head == request.head,
        r.0.body.raw() == request.body.raw(),
        r.0.body.header_end() == request.body.header_end(),
        r.0.body.body_start() == request.body.body_start(),
        r.0.body.peer() == options.current_client_addr,
        r.1.status == 400,
        r.1.version == request.head.version,
        headers_view(r.1.headers@) == seq![(utf8("content-type"@), utf8("application/json"@))],
        r.1.body.options == *options,
        !r.1.body.use_file,
        r.1.body.data().len() == 0,
{
    let mut request = request;
    request.body.set_ip(options.current_client_addr);
    let response = Response::new(request.head.version, ArenaWriter::new(arena, options.clone()));
    (request, response)
}

} // verus!
