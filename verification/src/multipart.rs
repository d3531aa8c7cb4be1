//! Multipart forms over the bytes of a request body: fields and parts are
//! views into the body, found by the byte scanner.

use vstd::prelude::*;
use vstd::slice::slice_subrange;
use crate::arena::ArenaBody;
use crate::content_length::{trim_span, trimmed};
use crate::protocol::{headers_view, Header};
use crate::request::{colon_space, text_from_utf8_lossy, utf8_lossy, Body, Request};
use crate::scanner::{header_body_split, split_chunks, SplitBytesArena};
use crate::search::{
    find_from, first_match, lemma_first_match_from, occurs_at, piece_spans, spans_of,
    spans_within, split, split_on,
};
use crate::text::{as_text, bytes_eq, crlf, eq_ignore_case, lower_seq, utf8, CR, LF};

verus! {

/// Bytes as the text of a field: none where there are no bytes, or where
/// they are not well-formed UTF-8.
pub open spec fn text_of(bytes: Seq<u8>) -> Option<Seq<u8>> {
    if bytes.len() > 0 && vstd::utf8::valid_utf8(bytes) {
        Some(bytes)
    } else {
        None
    }
}

/// Bytes as the text of a field.
pub fn field_text<'a>(bytes: &'a [u8]) -> (r: Option<&'a str>)
    ensures
        match r {
            Some(s) => text_of(bytes@) == Some(utf8(s@)),
            None => text_of(bytes@) is None,
        },
{
    if bytes.len() == 0 {
        None
    } else {
        as_text(bytes)
    }
}

/// One header field of a part, as views into the body.
#[derive(Clone, Copy, Debug)]
pub struct ArenaHeaderRef<'a> {
    pub key: &'a [u8],
    pub value: &'a [u8],
}

impl<'a> ArenaHeaderRef<'a> {
    /// A header field of the given views.
    pub fn new(key_slice: &'a [u8], value_slice: &'a [u8]) -> (r: ArenaHeaderRef<'a>)
        ensures
            r.key@ == key_slice@,
            r.value@ == value_slice@,
    {
        ArenaHeaderRef { key: key_slice, value: value_slice }
    }

    /// The name of the field, as text.
    pub fn get_key(&self) -> (r: Option<&'a str>)
        ensures
            match r {
                Some(s) => text_of(self.key@) == Some(utf8(s@)),
                None => text_of(self.key@) is None,
            },
    {
        field_text(self.key)
    }

    /// The value of the field, as text.
    pub fn get_value(&self) -> (r: Option<&'a str>)
        ensures
            match r {
                Some(s) => text_of(self.value@) == Some(utf8(s@)),
                None => text_of(self.value@) is None,
            },
    {
        field_text(self.value)
    }
}

/// One text field of a form, as views into the body.
#[derive(Clone, Copy, Debug)]
pub struct ArenaTextFieldRef<'a> {
    pub name: &'a [u8],
    pub value: &'a [u8],
}

impl<'a> ArenaTextFieldRef<'a> {
    /// A text field of the given views.
    pub fn new(name_slice: &'a [u8], value_slice: &'a [u8]) -> (r: ArenaTextFieldRef<'a>)
        ensures
            r.name@ == name_slice@,
            r.value@ == value_slice@,
    {
        ArenaTextFieldRef { name: name_slice, value: value_slice }
    }

    /// The name of the field, as text.
    pub fn get_name(&self) -> (r: Option<&'a str>)
        ensures
            match r {
                Some(s) => text_of(self.name@) == Some(utf8(s@)),
                None => text_of(self.name@) is None,
            },
    {
        field_text(self.name)
    }

    /// The value of the field, as text.
    pub fn get_value(&self) -> (r: Option<&'a str>)
        ensures
            match r {
                Some(s) => text_of(self.value@) == Some(utf8(s@)),
                None => text_of(self.value@) is None,
            },
    {
        field_text(self.value)
    }
}

/// The index of the first header field among `headers[from..]` whose name
/// is text and is `name` when ASCII case is ignored.
pub open spec fn first_header_named(headers: Seq<ArenaHeaderRef>, name: Seq<u8>, from: int) -> Option<
    int,
>
    decreases headers.len() - from,
{
    if from < 0 || from >= headers.len() {
        None
    } else if text_of(headers[from].key@) is Some && lower_seq(headers[from].key@) == lower_seq(
        name,
    ) {
        Some(from)
    } else {
        first_header_named(headers, name, from + 1)
    }
}

/// One file part of a form, as views into the body. A view without bytes
/// stands for a value that the part does not have.
#[derive(Debug)]
pub struct ArenaPartRef<'a> {
    pub name: &'a [u8],
    pub file_name: &'a [u8],
    pub content_type: &'a [u8],
    pub body: &'a [u8],
    pub headers: Vec<ArenaHeaderRef<'a>>,
}

impl<'a> ArenaPartRef<'a> {
    /// A part with the given body and nothing else.
    pub fn new(body_slice: &'a [u8]) -> (r: ArenaPartRef<'a>)
        ensures
            r.name@.len() == 0,
            r.file_name@.len() == 0,
            r.content_type@.len() == 0,
            r.body@ == body_slice@,
            r.headers@.len() == 0,
    {
        let none: &'a [u8] = slice_subrange(body_slice, 0, 0);
        ArenaPartRef {
            name: none,
            file_name: none,
            content_type: none,
            body: body_slice,
            headers: Vec::new(),
        }
    }

    /// Sets the name of the part.
    pub fn set_name(&mut self, name_slice: &'a [u8])
        ensures
            final(self).name@ == name_slice@,
            final(self).file_name == old(self).file_name,
            final(self).content_type == old(self).content_type,
            final(self).body == old(self).body,
            final(self).headers == old(self).headers,
    {
        self.name = name_slice;
    }

    /// Sets the file name of the part.
    pub fn set_file_name(&mut self, filename_slice: &'a [u8])
        ensures
            final(self).file_name@ == filename_slice@,
            final(self).name == old(self).name,
            final(self).content_type == old(self).content_type,
            final(self).body == old(self).body,
            final(self).headers == old(self).headers,
    {
        self.file_name = filename_slice;
    }

    /// Sets the media type of the part.
    pub fn set_content_type(&mut self, content_type_slice: &'a [u8])
        ensures
            final(self).content_type@ == content_type_slice@,
            final(self).name == old(self).name,
            final(self).file_name == old(self).file_name,
            final(self).body == old(self).body,
            final(self).headers == old(self).headers,
    {
        self.content_type = content_type_slice;
    }

    /// The name of the part, as text.
    pub fn get_name(&self) -> (r: Option<&'a str>)
        ensures
            match r {
                Some(s) => text_of(self.name@) == Some(utf8(s@)),
                None => text_of(self.name@) is None,
            },
    {
        field_text(self.name)
    }

    /// The file name of the part, as text.
    pub fn get_file_name(&self) -> (r: Option<&'a str>)
        ensures
            match r {
                Some(s) => text_of(self.file_name@) == Some(utf8(s@)),
                None => text_of(self.file_name@) is None,
            },
    {
        field_text(self.file_name)
    }

    /// The media type of the part, as text; the generic binary type where
    /// the part names none.
    pub fn get_content_type(&self) -> (r: Option<&'a str>)
        ensures
            match r {
                Some(s) => if self.content_type@.len() == 0 {
                    s@ == "application/octet-stream"@
                } else {
                    text_of(self.content_type@) == Some(utf8(s@))
                },
                None => self.content_type@.len() > 0 && text_of(self.content_type@) is None,
            },
    {
        if self.content_type.len() == 0 {
            Some("application/octet-stream")
        } else {
            field_text(self.content_type)
        }
    }

    /// The body of the part.
    pub fn get_body(&self) -> (r: &'a [u8])
        ensures
            r@ == self.body@,
    {
        self.body
    }

    /// The value, as text, of the first header field whose name is `name`
    /// when ASCII case is ignored.
    pub fn find_header(&self, name: &str) -> (r: Option<&'a str>)
        ensures
            match first_header_named(self.headers@, utf8(name@), 0) {
                Some(i) => match r {
                    Some(s) => text_of(self.headers@[i].value@) == Some(utf8(s@)),
                    None => text_of(self.headers@[i].value@) is None,
                },
                None => r is None,
            },
    {
        let wanted: &[u8] = name.as_bytes();
        let mut i: usize = 0;
        while i < self.headers.len()
            invariant
                i <= self.headers@.len(),
                wanted@ == utf8(name@),
                first_header_named(self.headers@, wanted@, 0) == first_header_named(
                    self.headers@,
                    wanted@,
                    i as int,
                ),
            decreases self.headers@.len() - i,
        {
            let h = self.headers[i];
            if field_text(h.key).is_some() && eq_ignore_case(h.key, wanted) {
                return h.get_value();
            }
            i += 1;
        }
        None
    }
}

/// The index of the first name among `names[from..]` that is `name`.
pub open spec fn first_named(names: Seq<Seq<u8>>, name: Seq<u8>, from: int) -> Option<int>
    decreases names.len() - from,
{
    if from < 0 || from >= names.len() {
        None
    } else if names[from].len() > 0 && names[from] == name {
        Some(from)
    } else {
        first_named(names, name, from + 1)
    }
}

/// The names of text fields.
pub open spec fn field_names(fields: Seq<ArenaTextFieldRef>) -> Seq<Seq<u8>> {
    Seq::new(fields.len(), |i: int| fields[i].name@)
}

/// The names of parts.
pub open spec fn part_names(parts: Seq<ArenaPartRef>) -> Seq<Seq<u8>> {
    Seq::new(parts.len(), |i: int| parts[i].name@)
}

/// A multipart form, as views into the body that it was read from.
#[derive(Debug)]
pub struct ArenaForm<'a> {
    pub arena_data: &'a [u8],
    pub text_fields: Vec<ArenaTextFieldRef<'a>>,
    pub parts: Vec<ArenaPartRef<'a>>,
}

impl<'a> ArenaForm<'a> {
    /// An empty form over the body `arena_data`.
    pub fn new(arena_data: &'a [u8]) -> (r: ArenaForm<'a>)
        ensures
            r.arena_data@ == arena_data@,
            r.text_fields@.len() == 0,
            r.parts@.len() == 0,
    {
        ArenaForm { arena_data, text_fields: Vec::new(), parts: Vec::new() }
    }

    /// The name, as text, of the text field at `index`.
    pub fn get_text_field_name(&self, index: usize) -> (r: Option<&'a str>)
        ensures
            index >= self.text_fields@.len() ==> r is None,
            index < self.text_fields@.len() ==> match r {
                Some(s) => text_of(self.text_fields@[index as int].name@) == Some(utf8(s@)),
                None => text_of(self.text_fields@[index as int].name@) is None,
            },
    {
        if index < self.text_fields.len() {
            self.text_fields[index].get_name()
        } else {
            None
        }
    }

    /// The value, as text, of the text field at `index`.
    pub fn get_text_field_value(&self, index: usize) -> (r: Option<&'a str>)
        ensures
            index >= self.text_fields@.len() ==> r is None,
            index < self.text_fields@.len() ==> match r {
                Some(s) => text_of(self.text_fields@[index as int].value@) == Some(utf8(s@)),
                None => text_of(self.text_fields@[index as int].value@) is None,
            },
    {
        if index < self.text_fields.len() {
            self.text_fields[index].get_value()
        } else {
            None
        }
    }

    /// The value, as text, of the first text field named `name`.
    pub fn find_text_field(&self, name: &str) -> (r: Option<&'a str>)
        ensures
            match first_named(field_names(self.text_fields@), utf8(name@), 0) {
                Some(i) => match r {
                    Some(s) => text_of(self.text_fields@[i].value@) == Some(utf8(s@)),
                    None => text_of(self.text_fields@[i].value@) is None,
                },
                None => r is None,
            },
    {
        let wanted: &[u8] = name.as_bytes();
        let ghost names = field_names(self.text_fields@);
        let mut i: usize = 0;
        while i < self.text_fields.len()
            invariant
                i <= self.text_fields@.len(),
                wanted@ == utf8(name@),
                names == field_names(self.text_fields@),
                first_named(names, wanted@, 0) == first_named(names, wanted@, i as int),
            decreases self.text_fields@.len() - i,
        {
            let field = self.text_fields[i];
            assert(names[i as int] == field.name@);
            if field.name.len() > 0 && bytes_eq(field.name, wanted) {
                return field.get_value();
            }
            i += 1;
        }
        None
    }

    /// The part at `index`.
    pub fn get_part(&self, index: usize) -> (r: Option<&ArenaPartRef<'a>>)
        ensures
            index >= self.parts@.len() ==> r is None,
            index < self.parts@.len() ==> r == Some(&self.parts@[index as int]),
    {
        if index < self.parts.len() {
            Some(&self.parts[index])
        } else {
            None
        }
    }

    /// The first part named `name`.
    pub fn find_file_part(&self, name: &str) -> (r: Option<&ArenaPartRef<'a>>)
        ensures
            match first_named(part_names(self.parts@), utf8(name@), 0) {
                Some(i) => r == Some(&self.parts@[i]),
                None => r is None,
            },
    {
        let wanted: &[u8] = name.as_bytes();
        let ghost names = part_names(self.parts@);
        let mut i: usize = 0;
        while i < self.parts.len()
            invariant
                i <= self.parts@.len(),
                wanted@ == utf8(name@),
                names == part_names(self.parts@),
                first_named(names, wanted@, 0) == first_named(names, wanted@, i as int),
            decreases self.parts@.len() - i,
        {
            assert(names[i as int] == self.parts@[i as int].name@);
            if self.parts[i].name.len() > 0 && bytes_eq(self.parts[i].name, wanted) {
                return Some(&self.parts[i]);
            }
            i += 1;
        }
        None
    }
}

/// A view of `target` as it stands in the arena: none where `target` is
/// empty or does not occur there.
pub open spec fn found_in(arena: Seq<u8>, target: Seq<u8>) -> Option<Seq<u8>> {
    if target.len() > 0 && first_match(arena, target) is Some {
        Some(target)
    } else {
        None
    }
}

/// Finds the first place in the arena at which the bytes of `target`
/// stand, and hands out that view.
pub fn find_slice_in_arena<'a>(arena_data: &'a [u8], target: &[u8]) -> (r: Option<&'a [u8]>)
    ensures
        match r {
            Some(view) => found_in(arena_data@, target@) == Some(view@),
            None => found_in(arena_data@, target@) is None,
        },
        r matches Some(view) ==> first_match(arena_data@, target@) matches Some(p) && view@
            == arena_data@.subrange(p, p + target@.len()),
{
    if target.len() == 0 {
        return None;
    }
    proof {
        lemma_first_match_from(arena_data@, target@, 0);
    }
    match find_from(arena_data, target, 0) {
        Some(p) => Some(slice_subrange(arena_data, p, p + target.len())),
        None => None,
    }
}

/// The first offset in `from..to` that does not hold `c`, or `to`.
pub open spec fn strip_start(s: Seq<u8>, c: u8, from: int, to: int) -> int
    decreases to - from,
{
    if 0 <= from < to <= s.len() && s[from] == c {
        strip_start(s, c, from + 1, to)
    } else {
        from
    }
}

/// The offset behind the last byte in `from..to` that is not `c`, or
/// `from`.
pub open spec fn strip_end(s: Seq<u8>, c: u8, from: int, to: int) -> int
    decreases to - from,
{
    if 0 <= from < to <= s.len() && s[to - 1] == c {
        strip_end(s, c, from, to - 1)
    } else {
        to
    }
}

/// `s` without every `c` at its start and at its end.
pub open spec fn stripped(s: Seq<u8>, c: u8) -> Seq<u8> {
    let from = strip_start(s, c, 0, s.len() as int);
    s.subrange(from, strip_end(s, c, from, s.len() as int))
}

/// `s` without the double quotes, and then the single quotes, around it.
pub open spec fn unquoted(s: Seq<u8>) -> Seq<u8> {
    stripped(stripped(s, '"' as u8), '\'' as u8)
}

/// `s` without every `c` at its start and at its end.
pub fn strip<'a>(s: &'a [u8], c: u8) -> (r: &'a [u8])
    ensures
        r@ == stripped(s@, c),
{
    let to: usize = s.len();
    let mut a: usize = 0;
    while a < to && s[a] == c
        invariant
            a <= to,
            to == s@.len(),
            strip_start(s@, c, 0, to as int) == strip_start(s@, c, a as int, to as int),
        decreases to - a,
    {
        a += 1;
    }
    let mut b: usize = to;
    while a < b && s[b - 1] == c
        invariant
            a <= b <= to,
            to == s@.len(),
            strip_end(s@, c, a as int, to as int) == strip_end(s@, c, a as int, b as int),
        decreases b - a,
    {
        b -= 1;
    }
    slice_subrange(s, a, b)
}

/// The separator of the parameters of a header value.
pub open spec fn semicolon() -> Seq<u8> {
    seq![';' as u8]
}

/// Whether a parameter starts with `key` and `=`.
pub open spec fn has_key(param: Seq<u8>, key: Seq<u8>) -> bool {
    param.len() > key.len() && param.subrange(0, key.len() as int) == key && param[key.len() as int]
        == '=' as u8
}

/// The value of the first parameter among `params[from..]` that, trimmed,
/// starts with `key` and `=`: what follows the `=`, without quotes.
pub open spec fn param_value(params: Seq<Seq<u8>>, key: Seq<u8>, from: int) -> Option<Seq<u8>>
    decreases params.len() - from,
{
    if from < 0 || from >= params.len() {
        None
    } else if has_key(trimmed(params[from]), key) {
        let param = trimmed(params[from]);
        Some(unquoted(param.subrange(key.len() as int + 1, param.len() as int)))
    } else {
        param_value(params, key, from + 1)
    }
}

/// The value that a `Content-Disposition` header gives for `key`.
pub open spec fn disposition_value(header_value: Seq<u8>, key: Seq<u8>) -> Option<Seq<u8>> {
    param_value(split(header_value, semicolon()), key, 0)
}

/// Reads the value that a `Content-Disposition` header gives for `key`:
/// the header is cut at its semicolons, and the first parameter that, trimmed,
/// starts with `key` and `=` gives what follows, without quotes.
pub fn extract_content_disposition_value<'a>(header_value: &'a [u8], key: &[u8]) -> (r: Option<
    &'a [u8],
>)
    ensures
        match r {
            Some(value) => disposition_value(header_value@, key@) == Some(value@),
            None => disposition_value(header_value@, key@) is None,
        },
{
    let sep: [u8; 1] = [';' as u8];
    assert(sep@ =~= semicolon());
    let spans = split_on(header_value, sep.as_slice());
    let ghost params = split(header_value@, semicolon());
    let mut k: usize = 0;
    while k < spans.len()
        invariant
            k <= spans@.len(),
            params == split(header_value@, semicolon()),
            params.len() == spans@.len(),
            spans_of(spans@) == piece_spans(header_value@, semicolon(), 0),
            spans_within(spans@, header_value@.len() as int),
            param_value(params, key@, 0) == param_value(params, key@, k as int),
        decreases spans@.len() - k,
    {
        let span = spans[k];
        assert(spans_of(spans@)[k as int] == (span.0 as int, span.1 as int));
        let raw = slice_subrange(header_value, span.0, span.1);
        assert(raw@ == params[k as int]);
        let t = trim_span(raw, 0, raw.len());
        let param = slice_subrange(raw, t.0, t.1);
        assert(param@ == trimmed(raw@));
        let n: usize = key.len();
        if param.len() > n && occurs_at(param, key, 0) && param[n] == '=' as u8 {
            let value = slice_subrange(param, n + 1, param.len());
            return Some(strip(strip(value, '"' as u8), '\'' as u8));
        }
        k += 1;
    }
    None
}

/// One part of a form, as a mathematical value.
pub struct PartView {
    pub name: Seq<u8>,
    pub file_name: Seq<u8>,
    pub content_type: Seq<u8>,
    pub body: Seq<u8>,
    pub headers: Seq<(Seq<u8>, Seq<u8>)>,
}

/// Header fields, as mathematical values.
pub open spec fn header_pairs(headers: Seq<ArenaHeaderRef>) -> Seq<(Seq<u8>, Seq<u8>)> {
    Seq::new(headers.len(), |i: int| (headers[i].key@, headers[i].value@))
}

impl<'a> View for ArenaPartRef<'a> {
    type V = PartView;

    open spec fn view(&self) -> PartView {
        PartView {
            name: self.name@,
            file_name: self.file_name@,
            content_type: self.content_type@,
            body: self.body@,
            headers: header_pairs(self.headers@),
        }
    }
}

/// A part while its header lines are read, and whether it names a file.
pub struct PartState {
    pub part: PartView,
    pub is_file: bool,
}

/// The part once the disposition `value` is read: the name and the file
/// name are those that the disposition gives and the arena holds; a file name
/// makes the part a file.
pub open spec fn with_disposition(arena: Seq<u8>, st: PartState, value: Seq<u8>) -> PartState {
    let named = match disposition_value(value, utf8("name"@)) {
        Some(v) => match found_in(arena, v) {
            Some(name) => PartState { part: PartView { name, ..st.part }, ..st },
            None => st,
        },
        None => st,
    };
    match disposition_value(value, utf8("filename"@)) {
        Some(v) => match found_in(arena, v) {
            Some(file_name) => PartState {
                part: PartView { file_name, ..named.part },
                is_file: true,
            },
            None => named,
        },
        None => named,
    }
}

/// The part once a header line is read. A line without `": "` changes
/// nothing; `Content-Disposition` gives the name and the file name,
/// `Content-Type` the media type; and every header field whose name and value
/// the arena holds is listed.
pub open spec fn with_line(arena: Seq<u8>, st: PartState, line: Seq<u8>) -> PartState {
    match first_match(line, colon_space()) {
        None => st,
        Some(p) => {
            let name = line.subrange(0, p);
            let value = line.subrange(p + 2, line.len() as int);
            let read = if lower_seq(name) == lower_seq(utf8("content-disposition"@)) {
                with_disposition(arena, st, value)
            } else if lower_seq(name) == lower_seq(utf8("content-type"@)) {
                match found_in(arena, value) {
                    Some(content_type) => PartState {
                        part: PartView { content_type, ..st.part },
                        ..st
                    },
                    None => st,
                }
            } else {
                st
            };
            if found_in(arena, name) is Some && found_in(arena, value) is Some {
                PartState {
                    part: PartView { headers: read.part.headers.push((name, value)), ..read.part },
                    ..read
                }
            } else {
                read
            }
        },
    }
}

/// The part once the header lines `lines` are read, one after the other.
pub open spec fn with_lines(arena: Seq<u8>, st: PartState, lines: Seq<Seq<u8>>) -> PartState
    decreases lines.len(),
{
    if lines.len() == 0 {
        st
    } else {
        with_line(arena, with_lines(arena, st, lines.drop_last()), lines.last())
    }
}

/// The part that a chunk of the body holds: its header block is read line
/// by line, and what follows the header block is its body.
pub open spec fn part_of_chunk(arena: Seq<u8>, chunk: Seq<u8>) -> PartState {
    let (header, body) = header_body_split(chunk);
    with_lines(
        arena,
        PartState {
            part: PartView {
                name: Seq::empty(),
                file_name: Seq::empty(),
                content_type: Seq::empty(),
                body,
                headers: Seq::empty(),
            },
            is_file: false,
        },
        split(header, crlf()),
    )
}

/// A form, as a mathematical value: its text fields, as names and values,
/// and its file parts.
pub struct FormView {
    pub text_fields: Seq<(Seq<u8>, Seq<u8>)>,
    pub parts: Seq<PartView>,
}

/// The form with what a chunk holds: a part without a name that is text
/// is left out; a part with a file name is a file part; any other part is a
/// text field, where it has a body.
pub open spec fn with_chunk(arena: Seq<u8>, form: FormView, chunk: Seq<u8>) -> FormView {
    let st = part_of_chunk(arena, chunk);
    if text_of(st.part.name) is None {
        form
    } else if st.is_file {
        FormView { parts: form.parts.push(st.part), ..form }
    } else if found_in(arena, st.part.name) is Some && st.part.body.len() > 0 {
        FormView { text_fields: form.text_fields.push((st.part.name, st.part.body)), ..form }
    } else {
        form
    }
}

/// The form that the chunks hold.
pub open spec fn form_of(arena: Seq<u8>, chunks: Seq<Seq<u8>>) -> FormView
    decreases chunks.len(),
{
    if chunks.len() == 0 {
        FormView { text_fields: Seq::empty(), parts: Seq::empty() }
    } else {
        with_chunk(arena, form_of(arena, chunks.drop_last()), chunks.last())
    }
}

/// The header block of every chunk is well-formed UTF-8.
pub open spec fn headers_are_text(chunks: Seq<Seq<u8>>) -> bool {
    forall|i: int|
        0 <= i < chunks.len() ==> vstd::utf8::valid_utf8(header_body_split(#[trigger] chunks[i]).0)
}

/// The text fields of a form, as mathematical values.
pub open spec fn field_pairs(fields: Seq<ArenaTextFieldRef>) -> Seq<(Seq<u8>, Seq<u8>)> {
    Seq::new(fields.len(), |i: int| (fields[i].name@, fields[i].value@))
}

/// The parts of a form, as mathematical values.
pub open spec fn part_views(parts: Seq<ArenaPartRef>) -> Seq<PartView> {
    Seq::new(parts.len(), |i: int| parts[i]@)
}

impl<'a> View for ArenaForm<'a> {
    type V = FormView;

    open spec fn view(&self) -> FormView {
        FormView { text_fields: field_pairs(self.text_fields@), parts: part_views(self.parts@) }
    }
}

/// Why a body could not be read as a form.
#[derive(Clone, Copy, Debug, PartialEq, Eq, Structural)]
pub enum MultipartError {
    /// The media type of the request is not text.
    HeaderNotText,
    /// The media type names no boundary.
    BoundaryNotFound,
    /// The header block of a part is not well-formed UTF-8.
    PartNotText,
}

/// The text before `boundary=` in a media type, and what follows it.
pub open spec fn boundary_key() -> Seq<u8> {
    utf8("boundary="@)
}

/// The boundary that a media type names: what stands between its first
/// `boundary=` and its second, or its end.
pub open spec fn boundary_of(content_type: Seq<u8>) -> Option<Seq<u8>> {
    let parts = split(content_type, boundary_key());
    if parts.len() > 1 {
        Some(parts[1])
    } else {
        None
    }
}

/// Whether a media type is that of a multipart form.
pub open spec fn is_multipart(content_type: Seq<u8>) -> bool {
    first_match(content_type, utf8("multipart/form-data"@)) is Some
}

/// The delimiter of the parts: two dashes and the boundary.
pub open spec fn part_delimiter(boundary: Seq<u8>) -> Seq<u8> {
    seq!['-' as u8, '-' as u8] + boundary
}

/// What reading a body as a form comes to.
pub enum MultipartOutcome {
    /// The request holds no multipart form.
    NotMultipart,
    /// The body could not be read.
    Failed(MultipartError),
    /// The form.
    Form(FormView),
}

/// What reading `body` as a form comes to, given the media type of the
/// request.
pub open spec fn multipart_of(content_type: Seq<u8>, body: Seq<u8>) -> MultipartOutcome {
    if !is_multipart(content_type) {
        MultipartOutcome::NotMultipart
    } else {
        match boundary_of(content_type) {
            None => MultipartOutcome::Failed(MultipartError::BoundaryNotFound),
            Some(boundary) => {
                let chunks = split_chunks(body, part_delimiter(boundary));
                if headers_are_text(chunks) {
                    MultipartOutcome::Form(form_of(body, chunks))
                } else {
                    MultipartOutcome::Failed(MultipartError::PartNotText)
                }
            },
        }
    }
}

/// Reads the disposition `value` into `part`.
fn read_disposition<'a>(arena: &'a [u8], part: &mut ArenaPartRef<'a>, is_file: &mut bool, value: &[u8])
    ensures
        (PartState { part: final(part)@, is_file: *final(is_file) }) == with_disposition(
            arena@,
            PartState { part: old(part)@, is_file: *old(is_file) },
            value@,
        ),
{
    match extract_content_disposition_value(value, "name".as_bytes()) {
        Some(v) => match find_slice_in_arena(arena, v) {
            Some(name) => {
                part.set_name(name);
            },
            None => {},
        },
        None => {},
    }
    match extract_content_disposition_value(value, "filename".as_bytes()) {
        Some(v) => match find_slice_in_arena(arena, v) {
            Some(file_name) => {
                part.set_file_name(file_name);
                *is_file = true;
            },
            None => {},
        },
        None => {},
    }
}

/// Reads a header line into `part`.
fn read_line<'a>(arena: &'a [u8], part: &mut ArenaPartRef<'a>, is_file: &mut bool, line: &[u8])
    ensures
        (PartState { part: final(part)@, is_file: *final(is_file) }) == with_line(
            arena@,
            PartState { part: old(part)@, is_file: *old(is_file) },
            line@,
        ),
{
    let sep: [u8; 2] = [':' as u8, ' ' as u8];
    assert(sep@ =~= colon_space());
    match find_from(line, sep.as_slice(), 0) {
        None => {},
        Some(p) => {
            let name = slice_subrange(line, 0, p);
            let value = slice_subrange(line, p + 2, line.len());
            if eq_ignore_case(name, "content-disposition".as_bytes()) {
                read_disposition(arena, part, is_file, value);
            } else if eq_ignore_case(name, "content-type".as_bytes()) {
                match find_slice_in_arena(arena, value) {
                    Some(content_type) => {
                        part.set_content_type(content_type);
                    },
                    None => {},
                }
            }
            match find_slice_in_arena(arena, name) {
                Some(key) => match find_slice_in_arena(arena, value) {
                    Some(val) => {
                        let ghost before = header_pairs(part.headers@);
                        part.headers.push(ArenaHeaderRef::new(key, val));
                        assert(header_pairs(part.headers@) =~= before.push((name@, value@)));
                    },
                    None => {},
                },
                None => {},
            }
        },
    }
}

/// Reads the part that a chunk of the body holds; `None` where its header
/// block is not well-formed UTF-8.
fn read_chunk<'a>(arena: &'a [u8], chunk: &'a [u8]) -> (r: Option<(ArenaPartRef<'a>, bool)>)
    ensures
        r.is_some() <==> vstd::utf8::valid_utf8(header_body_split(chunk@).0),
        r matches Some(read) ==> (PartState { part: read.0@, is_file: read.1 }) == part_of_chunk(
            arena@,
            chunk@,
        ),
{
    let (header, body) = chunk.split_header_body_arena();
    if as_text(header).is_none() {
        return None;
    }
    let mut part = ArenaPartRef::new(body);
    let mut is_file = false;
    let end: [u8; 2] = [CR, LF];
    assert(end@ =~= crlf());
    let spans = split_on(header, end.as_slice());
    let ghost lines = split(header@, crlf());
    let ghost first = PartState { part: part@, is_file: false };
    proof {
        assert(lines.subrange(0, 0) =~= Seq::empty());
        assert(part@.headers =~= Seq::empty());
        assert(part@.name =~= Seq::empty());
        assert(part@.file_name =~= Seq::empty());
        assert(part@.content_type =~= Seq::empty());
    }
    let mut k: usize = 0;
    while k < spans.len()
        invariant
            k <= spans@.len(),
            lines == split(header@, crlf()),
            lines.len() == spans@.len(),
            spans_of(spans@) == piece_spans(header@, crlf(), 0),
            spans_within(spans@, header@.len() as int),
            (PartState { part: part@, is_file }) == with_lines(
                arena@,
                first,
                lines.subrange(0, k as int),
            ),
        decreases spans@.len() - k,
    {
        let span = spans[k];
        proof {
            assert(spans_of(spans@)[k as int] == (span.0 as int, span.1 as int));
            assert(lines.subrange(0, k + 1).drop_last() =~= lines.subrange(0, k as int));
            assert(lines.subrange(0, k + 1).last() == lines[k as int]);
        }
        read_line(arena, &mut part, &mut is_file, slice_subrange(header, span.0, span.1));
        k += 1;
    }
    assert(lines.subrange(0, lines.len() as int) =~= lines);
    Some((part, is_file))
}

/// Reads `body` as a multipart form whose parts are delimited by two
/// dashes and `boundary`; `None` where the header block of a part is not
/// well-formed UTF-8.
pub fn read_form<'a>(body: &'a [u8], boundary: &[u8]) -> (r: Option<ArenaForm<'a>>)
    ensures
        r.is_some() <==> headers_are_text(split_chunks(body@, part_delimiter(boundary@))),
        r matches Some(form) ==> form@ == form_of(
            body@,
            split_chunks(body@, part_delimiter(boundary@)),
        ) && form.arena_data@ == body@,
{
    let mut delimiter: Vec<u8> = Vec::new();
    delimiter.push('-' as u8);
    delimiter.push('-' as u8);
    delimiter.extend_from_slice(boundary);
    assert(delimiter@ =~= part_delimiter(boundary@));
    let chunks = body.split_bytes_arena(delimiter.as_slice());
    let ghost all = split_chunks(body@, part_delimiter(boundary@));
    let mut form = ArenaForm::new(body);
    let mut k: usize = 0;
    proof {
        assert(all.subrange(0, 0) =~= Seq::empty());
        assert(form@.text_fields =~= Seq::empty());
        assert(form@.parts =~= Seq::empty());
    }
    while k < chunks.len()
        invariant
            k <= chunks@.len(),
            all == split_chunks(body@, part_delimiter(boundary@)),
            chunks@.len() == all.len(),
            forall|i: int| 0 <= i < chunks@.len() ==> chunks@[i]@ == all[i],
            form.arena_data@ == body@,
            form@ == form_of(body@, all.subrange(0, k as int)),
            headers_are_text(all.subrange(0, k as int)),
        decreases chunks@.len() - k,
    {
        let chunk = chunks[k];
        proof {
            assert(all.subrange(0, k + 1).drop_last() =~= all.subrange(0, k as int));
            assert(all.subrange(0, k + 1).last() == all[k as int]);
        }
        match read_chunk(body, chunk) {
            None => {
                assert(!vstd::utf8::valid_utf8(header_body_split(all[k as int]).0));
                return None;
            },
            Some(read) => {
                let part = read.0;
                let is_file = read.1;
                let ghost before = form@;
                if part.get_name().is_some() {
                    if is_file {
                        let ghost pv = part@;
                        form.parts.push(part);
                        assert(form@.parts =~= before.parts.push(pv));
                        assert(form@.text_fields =~= before.text_fields);
                    } else {
                        match find_slice_in_arena(body, part.name) {
                            Some(name) => {
                                if part.body.len() > 0 {
                                    form.text_fields.push(ArenaTextFieldRef::new(name, part.body));
                                    assert(form@.text_fields =~= before.text_fields.push(
                                        (part.name@, part.body@),
                                    ));
                                    assert(form@.parts =~= before.parts);
                                }
                            },
                            None => {},
                        }
                    }
                }
                proof {
                    assert forall|i: int| 0 <= i < k + 1 implies vstd::utf8::valid_utf8(
                        header_body_split(#[trigger] all.subrange(0, k + 1)[i]).0,
                    ) by {
                        if i < k {
                            assert(all.subrange(0, k + 1)[i] == all.subrange(0, k as int)[i]);
                        }
                    }
                }
            },
        }
        k += 1;
    }
    assert(all.subrange(0, all.len() as int) =~= all);
    Some(form)
}

/// Reads `body` as a multipart form, given the media type of the request:
/// `Ok(None)` where the media type is not that of a multipart form.
pub fn parse_multipart<'a>(content_type: &[u8], body: &'a [u8]) -> (r: Result<
    Option<ArenaForm<'a>>,
    MultipartError,
>)
    ensures
        match r {
            Ok(None) => multipart_of(content_type@, body@) is NotMultipart,
            Ok(Some(form)) => multipart_of(content_type@, body@) == MultipartOutcome::Form(form@)
                && form.arena_data@ == body@,
            Err(e) => multipart_of(content_type@, body@) == MultipartOutcome::Failed(e),
        },
{
    if find_from(content_type, "multipart/form-data".as_bytes(), 0).is_none() {
        return Ok(None);
    }
    let spans = split_on(content_type, "boundary=".as_bytes());
    if spans.len() < 2 {
        return Err(MultipartError::BoundaryNotFound);
    }
    let span = spans[1];
    assert(spans_of(spans@)[1] == (span.0 as int, span.1 as int));
    let boundary = slice_subrange(content_type, span.0, span.1);
    match read_form(body, boundary) {
        Some(form) => Ok(Some(form)),
        None => Err(MultipartError::PartNotText),
    }
}

/// The value of the first header field among `headers[from..]` whose
/// name is `name` when ASCII case is ignored.
pub open spec fn header_value(headers: Seq<(Seq<u8>, Seq<u8>)>, name: Seq<u8>, from: int) -> Option<
    Seq<u8>,
>
    decreases headers.len() - from,
{
    if from < 0 || from >= headers.len() {
        None
    } else if lower_seq(headers[from].0) == lower_seq(name) {
        Some(headers[from].1)
    } else {
        header_value(headers, name, from + 1)
    }
}

/// The value of the first header field named `name`, in any ASCII case.
pub fn find_header_value<'h>(headers: &'h Vec<Header>, name: &[u8]) -> (r: Option<&'h [u8]>)
    ensures
        match r {
            Some(value) => header_value(headers_view(headers@), name@, 0) == Some(value@),
            None => header_value(headers_view(headers@), name@, 0) is None,
        },
{
    let ghost hv = headers_view(headers@);
    let mut i: usize = 0;
    while i < headers.len()
        invariant
            i <= headers@.len(),
            hv == headers_view(headers@),
            header_value(hv, name@, 0) == header_value(hv, name@, i as int),
        decreases headers@.len() - i,
    {
        assert(hv[i as int] == headers@[i as int]@);
        if eq_ignore_case(headers[i].name.as_slice(), name) {
            return Some(headers[i].value.as_slice());
        }
        i += 1;
    }
    None
}

/// A byte of visible ASCII, or a tab.
pub open spec fn is_visible(b: u8) -> bool {
    (32 <= b && b < 127) || b == 9
}

/// Every byte is visible ASCII or a tab.
pub open spec fn is_visible_text(value: Seq<u8>) -> bool {
    forall|i: int| 0 <= i < value.len() ==> is_visible(#[trigger] value[i])
}

/// Whether every byte is visible ASCII or a tab.
pub fn visible_text(value: &[u8]) -> (r: bool)
    ensures
        r == is_visible_text(value@),
{
    let mut i: usize = 0;
    while i < value.len()
        invariant
            i <= value@.len(),
            forall|j: int| 0 <= j < i ==> is_visible(#[trigger] value@[j]),
        decreases value@.len() - i,
    {
        let b = value[i];
        if !((b >= 32 && b < 127) || b == 9) {
            return false;
        }
        i += 1;
    }
    true
}

/// What reading the body of a request as a form comes to: the media type
/// is the value of the first `content-type` header field, which must be
/// visible text.
pub open spec fn request_multipart(headers: Seq<(Seq<u8>, Seq<u8>)>, body: Seq<u8>) -> MultipartOutcome {
    match header_value(headers, utf8("content-type"@), 0) {
        None => MultipartOutcome::NotMultipart,
        Some(value) => if is_visible_text(value) {
            multipart_of(value, body)
        } else {
            MultipartOutcome::Failed(MultipartError::HeaderNotText)
        },
    }
}

/// Reads the body of a request as a form, given the headers of the
/// request.
pub fn read_request_form<'a>(headers: &Vec<Header>, body: &'a [u8]) -> (r: Result<
    Option<ArenaForm<'a>>,
    MultipartError,
>)
    ensures
        match r {
            Ok(None) => request_multipart(headers_view(headers@), body@) is NotMultipart,
            Ok(Some(form)) => request_multipart(headers_view(headers@), body@)
                == MultipartOutcome::Form(form@) && form.arena_data@ == body@,
            Err(e) => request_multipart(headers_view(headers@), body@) == MultipartOutcome::Failed(
                e,
            ),
        },
{
    match find_header_value(headers, "content-type".as_bytes()) {
        None => Ok(None),
        Some(value) => {
            if !visible_text(value) {
                Err(MultipartError::HeaderNotText)
            } else {
                parse_multipart(value, body)
            }
        },
    }
}

/// What a request whose body lies in the arena offers.
pub trait RequestUtilsArena<'a> {
    /// The body as text.
    fn get_text_arena(&self) -> Option<&'a str>;

    /// The body as a multipart form.
    fn get_multi_part_arena(&self) -> Result<Option<ArenaForm<'a>>, MultipartError>;
}

impl<'a> RequestUtilsArena<'a> for Request<ArenaBody<'a>> {
    /// The body as text, or `None` where it is not well-formed UTF-8.
    fn get_text_arena(&self) -> (r: Option<&'a str>)
        ensures
            r.is_some() <==> vstd::utf8::valid_utf8(self.body.body()),
            r matches Some(s) ==> utf8(s@) == self.body.body(),
    {
        self.body.get_body_str()
    }

    /// The body as a multipart form whose fields and parts are views into
    /// the arena; `Ok(None)` where the request holds no multipart form.
    fn get_multi_part_arena(&self) -> (r: Result<Option<ArenaForm<'a>>, MultipartError>)
        ensures
            match r {
                Ok(None) => request_multipart(headers_view(self.head.headers@), self.body.body())
                    is NotMultipart,
                Ok(Some(form)) => request_multipart(
                    headers_view(self.head.headers@),
                    self.body.body(),
                ) == MultipartOutcome::Form(form@) && form.arena_data@ == self.body.body(),
                Err(e) => request_multipart(headers_view(self.head.headers@), self.body.body())
                    == MultipartOutcome::Failed(e),
            },
    {
        read_request_form(&self.head.headers, self.body.get_body_bytes())
    }
}

/// One file part of a form, owned.
#[derive(Debug)]
pub struct Part {
    pub name: String,
    pub file_name: String,
    pub headers: Vec<Header>,
    pub body: Vec<u8>,
}

impl Part {
    /// A part that holds nothing.
    pub fn new() -> (r: Part)
        ensures
            r.name@.len() == 0,
            r.file_name@.len() == 0,
            r.headers@.len() == 0,
            r.body@.len() == 0,
    {
        Part { name: String::new(), file_name: String::new(), headers: Vec::new(), body: Vec::new() }
    }

    /// Sets the name of the part.
    pub fn set_name(&mut self, name: &str)
        ensures
            final(self).name@ == name@,
            final(self).file_name == old(self).file_name,
            final(self).headers == old(self).headers,
            final(self).body == old(self).body,
    {
        self.name = name.to_owned();
    }

    /// Sets the file name of the part.
    pub fn set_file_name(&mut self, file_name: &str)
        ensures
            final(self).file_name@ == file_name@,
            final(self).name == old(self).name,
            final(self).headers == old(self).headers,
            final(self).body == old(self).body,
    {
        self.file_name = file_name.to_owned();
    }

    /// An owned copy of a part of an arena form; names become text, with
    /// ill-formed sequences replaced.
    pub fn from_arena(part: &ArenaPartRef) -> (r: Part)
        ensures
            r.name@ == utf8_lossy(part.name@),
            r.file_name@ == utf8_lossy(part.file_name@),
            r.body@ == part.body@,
            headers_view(r.headers@) == header_pairs(part.headers@),
    {
        let mut headers: Vec<Header> = Vec::new();
        let mut i: usize = 0;
        assert(headers_view(headers@) =~= header_pairs(part.headers@).subrange(0, 0));
        while i < part.headers.len()
            invariant
                i <= part.headers@.len(),
                headers_view(headers@) == header_pairs(part.headers@).subrange(0, i as int),
            decreases part.headers@.len() - i,
        {
            let ghost before = headers_view(headers@);
            let h = Header::new(part.headers[i].key, part.headers[i].value);
            headers.push(h);
            assert(headers_view(headers@) =~= before.push(h@));
            assert(headers_view(headers@) =~= header_pairs(part.headers@).subrange(0, i + 1));
            i += 1;
        }
        assert(header_pairs(part.headers@).subrange(0, part.headers@.len() as int)
            =~= header_pairs(part.headers@));
        let body = crate::text::copy_range(part.body, 0, part.body.len());
        assert(part.body@.subrange(0, part.body@.len() as int) =~= part.body@);
        Part {
            name: text_from_utf8_lossy(part.name),
            file_name: text_from_utf8_lossy(part.file_name),
            headers,
            body,
        }
    }
}

/// A multipart form, owned: one text field, as name and value, and the
/// file parts.
#[derive(Debug)]
pub struct Form {
    pub text: (String, String),
    pub parts: Vec<Part>,
}

impl Form {
    /// A form that holds nothing.
    pub fn new() -> (r: Form)
        ensures
            r.text.0@.len() == 0,
            r.text.1@.len() == 0,
            r.parts@.len() == 0,
    {
        Form { text: (String::new(), String::new()), parts: Vec::new() }
    }

    /// Sets the text field.
    pub fn add_text_field(&mut self, name: String, value: String)
        ensures
            final(self).text == (name, value),
            final(self).parts == old(self).parts,
    {
        self.text = (name, value);
    }

    /// Adds a file part behind the others.
    pub fn add_part(&mut self, part: Part)
        ensures
            final(self).parts@ == old(self).parts@.push(part),
            final(self).text == old(self).text,
    {
        self.parts.push(part);
    }

    /// The form is an owned copy of `form`: it holds the file parts, in
    /// order, with their names as text, and the last of the text fields,
    /// where there is one.
    pub open spec fn copies(self, form: FormView) -> bool {
        &&& self.parts@.len() == form.parts.len()
        &&& forall|i: int|
            0 <= i < self.parts@.len() ==> {
                &&& (#[trigger] self.parts@[i]).name@ == utf8_lossy(form.parts[i].name)
                &&& self.parts@[i].file_name@ == utf8_lossy(form.parts[i].file_name)
                &&& self.parts@[i].body@ == form.parts[i].body
                &&& headers_view(self.parts@[i].headers@) == form.parts[i].headers
            }
        &&& form.text_fields.len() == 0 ==> self.text.0@.len() == 0 && self.text.1@.len() == 0
        &&& form.text_fields.len() > 0 ==> self.text.0@ == utf8_lossy(form.text_fields.last().0)
            && self.text.1@ == utf8_lossy(form.text_fields.last().1)
    }

    /// An owned copy of an arena form: its file parts, in order, and the
    /// last of its text fields, where it has one.
    pub fn from_arena(form: &ArenaForm) -> (r: Form)
        ensures
            r.copies(form@),
    {
        let mut out = Form::new();
        let n: usize = form.text_fields.len();
        if n > 0 {
            let field = form.text_fields[n - 1];
            out.add_text_field(text_from_utf8_lossy(field.name), text_from_utf8_lossy(field.value));
        }
        let mut parts: Vec<Part> = Vec::new();
        let mut i: usize = 0;
        while i < form.parts.len()
            invariant
                i <= form.parts@.len(),
                parts@.len() == i,
                forall|j: int|
                    0 <= j < i ==> {
                        &&& (#[trigger] parts@[j]).name@ == utf8_lossy(form.parts@[j].name@)
                        &&& parts@[j].file_name@ == utf8_lossy(form.parts@[j].file_name@)
                        &&& parts@[j].body@ == form.parts@[j].body@
                        &&& headers_view(parts@[j].headers@) == header_pairs(
                            form.parts@[j].headers@,
                        )
                    },
            decreases form.parts@.len() - i,
        {
            parts.push(Part::from_arena(&form.parts[i]));
            i += 1;
        }
        out.parts = parts;
        proof {
            assert forall|i: int| 0 <= i < out.parts@.len() implies {
                &&& (#[trigger] out.parts@[i]).name@ == utf8_lossy(form@.parts[i].name)
                &&& out.parts@[i].file_name@ == utf8_lossy(form@.parts[i].file_name)
                &&& out.parts@[i].body@ == form@.parts[i].body
                &&& headers_view(out.parts@[i].headers@) == form@.parts[i].headers
            } by {
                assert(form@.parts[i] == form.parts@[i]@);
            }
            if form.text_fields@.len() > 0 {
                assert(form@.text_fields.last() == (
                    form.text_fields@.last().name@,
                    form.text_fields@.last().value@,
                ));
            }
        }
        out
    }
}

/// What a request that owns its body offers.
pub trait RequestUtils {
    /// The body as text.
    fn get_text(&mut self) -> String;

    /// The body as a multipart form.
    fn get_multi_part(&mut self) -> Result<Option<Form>, MultipartError>;
}

impl RequestUtils for Request<Body> {
    /// The body as text: on first use the bytes are decoded, ill-formed
    /// sequences replaced, and the text is kept.
    fn get_text(&mut self) -> (r: String)
        ensures
            final(self).head == old(self).head,
            final(self).body.bytes == old(self).body.bytes,
            final(self).body.len == old(self).body.len,
            final(self).body.ip == old(self).body.ip,
            final(self).body.body@ == if old(self).body.len > 0 {
                utf8_lossy(old(self).body.bytes@)
            } else {
                old(self).body.body@
            },
            r@ == final(self).body.body@,
    {
        self.body.get_text()
    }

    /// The body as a multipart form, owned; `Ok(None)` where the request
    /// holds no multipart form. The request stays as it is.
    fn get_multi_part(&mut self) -> (r: Result<Option<Form>, MultipartError>)
        ensures
            *final(self) == *old(self),
            match r {
                Ok(None) => request_multipart(
                    headers_view(old(self).head.headers@),
                    old(self).body.bytes@,
                ) is NotMultipart,
                Ok(Some(form)) => request_multipart(
                    headers_view(old(self).head.headers@),
                    old(self).body.bytes@,
                ) matches MultipartOutcome::Form(read) && form.copies(read),
                Err(e) => request_multipart(
                    headers_view(old(self).head.headers@),
                    old(self).body.bytes@,
                ) == MultipartOutcome::Failed(e),
            },
    {
        match read_request_form(&self.head.headers, self.body.bytes.as_slice()) {
            Ok(None) => Ok(None),
            Ok(Some(form)) => Ok(Some(Form::from_arena(&form))),
            Err(e) => Err(e),
        }
    }
}

/// The separator of a key and its value.
pub open spec fn equals_sign() -> Seq<u8> {
    seq!['=' as u8]
}

/// The key and the value of a parameter: the trimmed parameter is cut at
/// its first `=`; the key is what stands before, trimmed, and the value what
/// stands behind, trimmed and without quotes. A parameter without `=` has
/// none.
pub open spec fn key_value(param: Seq<u8>) -> Option<(Seq<u8>, Seq<u8>)> {
    let p = trimmed(param);
    match first_match(p, equals_sign()) {
        Some(eq) => Some(
            (trimmed(p.subrange(0, eq)), unquoted(trimmed(p.subrange(eq + 1, p.len() as int)))),
        ),
        None => None,
    }
}

/// The keys and values of parameters, in order.
pub open spec fn key_values(params: Seq<Seq<u8>>) -> Seq<(Seq<u8>, Seq<u8>)>
    decreases params.len(),
{
    if params.len() == 0 {
        Seq::empty()
    } else {
        match key_value(params.last()) {
            Some(kv) => key_values(params.drop_last()).push(kv),
            None => key_values(params.drop_last()),
        }
    }
}

/// The parameters of a header value.
pub trait GetHeaderChild<'a> {
    /// The keys and values of the parameters, in order.
    fn get_header_child(&self) -> Vec<(&'a [u8], &'a [u8])>;
}

impl<'a> GetHeaderChild<'a> for &'a [u8] {
    /// The keys and values of the parameters of a header value such as
    /// `form-data; name="field"; filename="file.txt"`, in order: the value is
    /// cut at its semicolons, and each parameter at its first `=`.
    fn get_header_child(&self) -> (r: Vec<(&'a [u8], &'a [u8])>)
        ensures
            r@.len() == key_values(split(self@, semicolon())).len(),
            forall|i: int|
                0 <= i < r@.len() ==> ((#[trigger] r@[i]).0@, r@[i].1@) == key_values(
                    split(self@, semicolon()),
                )[i],
    {
        let data: &'a [u8] = *self;
        let sep: [u8; 1] = [';' as u8];
        assert(sep@ =~= semicolon());
        let eq: [u8; 1] = ['=' as u8];
        assert(eq@ =~= equals_sign());
        let spans = split_on(data, sep.as_slice());
        let ghost params = split(data@, semicolon());
        let mut out: Vec<(&'a [u8], &'a [u8])> = Vec::new();
        let mut k: usize = 0;
        assert(params.subrange(0, 0) =~= Seq::empty());
        while k < spans.len()
            invariant
                k <= spans@.len(),
                data@ == self@,
                eq@ == equals_sign(),
                params == split(data@, semicolon()),
                params.len() == spans@.len(),
                spans_of(spans@) == piece_spans(data@, semicolon(), 0),
                spans_within(spans@, data@.len() as int),
                out@.len() == key_values(params.subrange(0, k as int)).len(),
                forall|i: int|
                    0 <= i < out@.len() ==> ((#[trigger] out@[i]).0@, out@[i].1@) == key_values(
                        params.subrange(0, k as int),
                    )[i],
            decreases spans@.len() - k,
        {
            let span = spans[k];
            proof {
                assert(spans_of(spans@)[k as int] == (span.0 as int, span.1 as int));
                assert(params.subrange(0, k + 1).drop_last() =~= params.subrange(0, k as int));
                assert(params.subrange(0, k + 1).last() == params[k as int]);
            }
            let raw = slice_subrange(data, span.0, span.1);
            let t = trim_span(raw, 0, raw.len());
            let param = slice_subrange(raw, t.0, t.1);
            assert(param@ == trimmed(raw@));
            match find_from(param, eq.as_slice(), 0) {
                Some(at) => {
                    let left = slice_subrange(param, 0, at);
                    let lt = trim_span(left, 0, left.len());
                    let key = slice_subrange(left, lt.0, lt.1);
                    let right = slice_subrange(param, at + 1, param.len());
                    let rt = trim_span(right, 0, right.len());
                    let value = strip(strip(slice_subrange(right, rt.0, rt.1), '"' as u8), '\'' as u8);
                    out.push((key, value));
                },
                None => {},
            }
            k += 1;
        }
        assert(params.subrange(0, params.len() as int) =~= params);
        out
    }
}

/// A copy of a string.
pub trait StringUtil {
    /// A copy of the string.
    fn copy_string(&self) -> String;
}

impl StringUtil for String {
    /// A copy of the string.
    fn copy_string(&self) -> (r: String)
        ensures
            r@ == self@,
    {
        self.clone()
    }
}

} // verus!
