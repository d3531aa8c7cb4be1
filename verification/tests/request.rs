use atomic_http::arena::ArenaBody;
use atomic_http::options::{Options, PeerAddr};
use atomic_http::protocol::{Header, Method, Version};
use atomic_http::request::{
    frame_request, get_parse_result_arena, get_parse_result_arena_writer,
    get_parse_result_from_request, get_request, method_accepted, parse_head, parse_header_line,
    parse_http_request_arena, parse_request_line, request_line_from, token_char,
};
use bumpalo::Bump;

fn pairs(headers: &[Header]) -> Vec<(Vec<u8>, Vec<u8>)> {
    headers.iter().map(|h| (h.name.clone(), h.value.clone())).collect()
}

#[test]
fn get_hello_is_framed_field_by_field() {
    let request = get_request(b"GET /hello HTTP/1.1\r\nHost: x\r\n\r\n");
    assert!(matches!(request.head.method, Method::Get));
    assert_eq!(request.head.uri, b"/hello".to_vec());
    assert_eq!(request.head.version, Version::Http11);
    assert_eq!(pairs(&request.head.headers), vec![(b"host".to_vec(), b"x".to_vec())]);
    assert!(request.body.bytes.is_empty());
    assert_eq!(request.body.len, 0);
    assert_eq!(request.body.ip, None);
}

#[test]
fn framing_twice_gives_equal_requests() {
    let buffer = b"PUT /a?b=c HTTP/1.0\r\nA: 1\r\nB: 2\r\n\r\nbody";
    let first = frame_request(buffer, 35);
    let second = frame_request(buffer, 35);
    assert_eq!(first.head.method.as_bytes(), second.head.method.as_bytes());
    assert_eq!(first.head.method.as_bytes(), b"PUT".to_vec());
    assert_eq!(first.head.uri, second.head.uri);
    assert_eq!(first.head.version, second.head.version);
    assert_eq!(first.head.version, Version::Http10);
    assert_eq!(pairs(&first.head.headers), pairs(&second.head.headers));
    assert_eq!(first.body.bytes, second.body.bytes);
    assert_eq!(first.body.bytes, b"body".to_vec());
}

#[test]
fn both_flavours_frame_alike() {
    let buffer = b"DELETE /x HTTP/2.0\r\nContent-Type: text/plain\r\nX-Dup: a\r\nX-Dup: b\r\n\r\npayload";
    let header_end = 68;
    let owned = frame_request(buffer, header_end);
    let arena = Bump::new();
    let viewed = parse_http_request_arena(ArenaBody::new(&arena, buffer, header_end, header_end));
    assert!(matches!(owned.head.method, Method::Delete));
    assert!(matches!(viewed.head.method, Method::Delete));
    assert_eq!(owned.head.uri, viewed.head.uri);
    assert_eq!(owned.head.version, Version::H2);
    assert_eq!(viewed.head.version, Version::H2);
    assert_eq!(pairs(&owned.head.headers), pairs(&viewed.head.headers));
    assert_eq!(
        pairs(&owned.head.headers),
        vec![
            (b"content-type".to_vec(), b"text/plain".to_vec()),
            (b"x-dup".to_vec(), b"a".to_vec()),
            (b"x-dup".to_vec(), b"b".to_vec()),
        ]
    );
    assert_eq!(owned.body.bytes.as_slice(), viewed.body.get_body_bytes());
    assert_eq!(viewed.body.get_body_str(), Some("payload"));
    assert_eq!(viewed.body.len(), 7);
    assert!(!viewed.body.is_empty());
    assert_eq!(viewed.body.get_raw_data(), buffer);
}

#[test]
fn request_line_defaults() {
    let line = parse_request_line(b"");
    assert!(matches!(line.method, Method::Get));
    assert_eq!(line.uri, b"/".to_vec());
    assert_eq!(line.version, Version::Http11);

    let line = parse_request_line(b"G@T  HTTP/9.9");
    assert!(matches!(line.method, Method::Get));
    assert_eq!(line.uri, b"/".to_vec());
    assert_eq!(line.version, Version::Http11);

    let line = parse_request_line(b"POST /p");
    assert!(matches!(line.method, Method::Post));
    assert_eq!(line.uri, b"/p".to_vec());
    assert_eq!(line.version, Version::Http11);

    let line = parse_request_line(b"PURGE /p HTTP/0.9");
    match line.method {
        Method::Extension(name) => assert_eq!(name, b"PURGE".to_vec()),
        _ => panic!("an extension method is kept"),
    }
    assert_eq!(line.version, Version::Http09);

    let line = parse_request_line(b"HEAD /p HTTP/3.0 trailing");
    assert!(matches!(line.method, Method::Head));
    assert_eq!(line.version, Version::H3);
}

#[test]
fn request_line_with_given_verdicts() {
    let line = request_line_from(b"GET /x HTTP/1.0", false, true);
    assert!(matches!(line.method, Method::Get));
    assert_eq!(line.uri, b"/x".to_vec());
    let line = request_line_from(b"PATCH /x HTTP/1.0", true, false);
    assert!(matches!(line.method, Method::Patch));
    assert_eq!(line.uri, b"/".to_vec());
    assert_eq!(line.version, Version::Http10);
}

#[test]
fn the_target_is_what_the_http_crate_takes() {
    assert_eq!(parse_request_line(b"GET /a%20b?q=1 HTTP/1.1").uri, b"/a%20b?q=1".to_vec());
    assert_eq!(parse_request_line(b"GET http://[::1 HTTP/1.1").uri, b"/".to_vec());
    assert_eq!(parse_request_line(b"OPTIONS * HTTP/1.1").uri, b"*".to_vec());
    assert!(matches!(parse_request_line(b"OPTIONS * HTTP/1.1").method, Method::Options));
}

#[test]
fn header_lines_split_at_the_first_colon_space() {
    let h = parse_header_line(b"Content-Type: text/html: x").unwrap();
    assert_eq!(h.name, b"content-type".to_vec());
    assert_eq!(h.value, b"text/html: x".to_vec());
    assert!(parse_header_line(b"NoSeparator").is_none());
    assert!(parse_header_line(b"Key:value").is_none());
    assert!(parse_header_line(b"").is_none());
    let h = parse_header_line(b": v").unwrap();
    assert_eq!(h.name, b"".to_vec());
    assert_eq!(h.value, b"v".to_vec());
}

#[test]
fn malformed_lines_are_skipped() {
    let head = parse_head(b"TRACE / HTTP/1.1\r\nbroken\r\n\r\nA: b\r\nC:d\r\nX-Y: z\r\n\r\n");
    assert!(matches!(head.method, Method::Trace));
    assert_eq!(
        pairs(&head.headers),
        vec![(b"a".to_vec(), b"b".to_vec()), (b"x-y".to_vec(), b"z".to_vec())]
    );
    let head = parse_head(b"\r\nCONNECT: x\r\n");
    assert!(matches!(head.method, Method::Get));
    assert_eq!(head.uri, b"/".to_vec());
    assert_eq!(pairs(&head.headers), vec![(b"connect".to_vec(), b"x".to_vec())]);
}

#[test]
fn a_message_without_a_delimiter_is_all_header_block() {
    let request = get_request(b"GET /only HTTP/1.1\r\nHost: y");
    assert_eq!(request.head.uri, b"/only".to_vec());
    assert_eq!(pairs(&request.head.headers), vec![(b"host".to_vec(), b"y".to_vec())]);
    assert!(request.body.bytes.is_empty());
    let request = frame_request(b"GET / HTTP/1.1\r\n\r\nrest", 1000);
    assert!(request.body.bytes.is_empty());
}

#[test]
fn the_framer_tags_the_peer_and_pairs_a_response() {
    let mut options = Options::new(String::from("/srv"));
    let peer = PeerAddr { v6: false, ip: 0x7f000001, port: 4242 };
    options.current_client_addr = Some(peer);
    assert_eq!(options.get_request_ip(), Some(peer));
    let (request, response) =
        get_parse_result_from_request(get_request(b"GET / HTTP/1.0\r\n\r\n"), &options);
    assert_eq!(request.body.ip, Some(peer));
    assert_eq!(response.status, 400);
    assert_eq!(response.version, Version::Http10);
    assert_eq!(
        pairs(&response.headers),
        vec![(b"content-type".to_vec(), b"application/json".to_vec())]
    );
    assert!(!response.body.use_file);

    let arena = Bump::new();
    let buffer = b"GET / HTTP/1.1\r\n\r\n";
    let framed = parse_http_request_arena(ArenaBody::new(&arena, buffer, 18, 18));
    assert_eq!(framed.body.ip(), None);
    let (request, response) = get_parse_result_arena(framed, &options);
    assert_eq!(request.body.ip(), Some(peer));
    assert_eq!(response.status, 400);

    let framed = parse_http_request_arena(ArenaBody::new(&arena, buffer, 18, 18));
    let (request, response) = get_parse_result_arena_writer(framed, &arena, &options);
    assert_eq!(request.body.ip(), Some(peer));
    assert_eq!(response.body.get_response_data(), b"");
    assert_eq!(response.version, Version::Http11);
}

#[test]
fn body_text_is_decoded_on_first_use() {
    let mut request = get_request(b"POST / HTTP/1.1\r\n\r\nhi \xff there");
    assert_eq!(request.body.get_text(), "hi \u{fffd} there");
    assert_eq!(request.body.body, "hi \u{fffd} there");
    let mut request = get_request(b"POST / HTTP/1.1\r\n\r\n");
    assert_eq!(request.body.get_text(), "");
}

#[test]
fn arena_body_offsets_are_held_within_the_data() {
    let arena = Bump::new();
    let body = ArenaBody::new(&arena, b"abcdef", 100, 200);
    assert_eq!(body.get_headers(), b"abcdef");
    assert_eq!(body.get_body_bytes(), b"");
    assert!(body.is_empty());
    let mut body = ArenaBody::new(&arena, b"ab\xffcd", 2, 2);
    assert_eq!(body.get_headers(), b"ab");
    assert_eq!(body.get_body_str(), None);
    body.set_ip(Some(PeerAddr { v6: true, ip: 1, port: 80 }));
    assert_eq!(body.ip(), Some(PeerAddr { v6: true, ip: 1, port: 80 }));
}

#[test]
fn methods_and_versions_round_trip() {
    for name in ["OPTIONS", "GET", "POST", "PUT", "DELETE", "HEAD", "TRACE", "CONNECT", "PATCH", "QUERY", "get"] {
        assert_eq!(Method::from_token(name.as_bytes()).as_bytes(), name.as_bytes().to_vec());
    }
    assert!(matches!(Method::from_token(b"QUERY"), Method::Query));
    assert!(matches!(parse_request_line(b"QUERY /q HTTP/1.1").method, Method::Query));
    assert!(matches!(Method::from_token(b"get"), Method::Extension(_)));
    for (text, version) in [
        ("HTTP/0.9", Version::Http09),
        ("HTTP/1.0", Version::Http10),
        ("HTTP/1.1", Version::Http11),
        ("HTTP/2.0", Version::H2),
        ("HTTP/3.0", Version::H3),
    ] {
        assert_eq!(Version::from_token(text.as_bytes()), version);
        assert_eq!(version.as_str(), text);
    }
    assert_eq!(Version::from_token(b"HTTP/2"), Version::Http11);
}

#[test]
fn method_tokens_are_runs_of_token_characters() {
    let allowed = "!#$%&'*+-.^_`|~0123456789ABCDEFGHIJKLMNOPQRSTUVWXYZabcdefghijklmnopqrstuvwxyz";
    for b in 0u8..=255 {
        if b == b' ' {
            continue;
        }
        let line = [b];
        let kept = match parse_request_line(&line).method {
            Method::Extension(name) => name == line.to_vec(),
            _ => false,
        };
        assert_eq!(kept, allowed.as_bytes().contains(&b));
    }
    let long = vec![b'a'; 40];
    assert_eq!(parse_request_line(&long).method.as_bytes(), long);
    let mut bad = vec![b'a'; 40];
    bad[39] = b'(';
    assert!(matches!(parse_request_line(&bad).method, Method::Get));
}

#[test]
fn the_arena_holds_a_copy_of_the_message() {
    let arena = Bump::new();
    let message = b"GET / HTTP/1.1\r\n\r\n".to_vec();
    let body = ArenaBody::new(&arena, &message, 18, 18);
    assert_eq!(body.get_raw_data(), message.as_slice());
    assert_ne!(body.get_raw_data().as_ptr(), message.as_ptr());
    drop(message);
    assert_eq!(body.get_headers(), b"GET / HTTP/1.1\r\n\r\n");
}

#[test]
fn method_tokens_are_what_the_http_crate_takes() {
    for b in 0u8..=255 {
        let token = [b];
        assert_eq!(method_accepted(&token), http::Method::from_bytes(&token).is_ok());
        assert_eq!(token_char(b), http::Method::from_bytes(&token).is_ok());
        let longer = [b'G', b, b'T'];
        assert_eq!(method_accepted(&longer), http::Method::from_bytes(&longer).is_ok());
    }
    let tokens: [&[u8]; 8] = [
        b"", b"GET", b"get", b"M-SEARCH", b"A B", b"PROPFIND",
        b"averyveryverylongmethodnamethatdoesnotfitinline", b"BAD\r\n",
    ];
    for token in tokens {
        assert_eq!(method_accepted(token), http::Method::from_bytes(token).is_ok());
    }
}
