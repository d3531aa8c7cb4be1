use atomic_http::options::Options;
use atomic_http::protocol::{Header, Version};
use atomic_http::response::{
    content_type_or_default, file_head, get_content_type, status_line_bytes, status_line_from,
    stream_buffer_size, ArenaWriter, PayloadKind, Response, ResponsePlan, ResponseUtil,
    ResponseUtilArena, Writer,
};
use bumpalo::Bump;

fn options() -> Options {
    Options::new(String::from("/srv"))
}

fn text(bytes: &[u8]) -> String {
    String::from_utf8(bytes.to_vec()).unwrap()
}

#[test]
fn status_lines_carry_the_canonical_reason() {
    assert_eq!(text(&status_line_bytes(Version::Http11, 200)), "HTTP/1.1 200 OK\r\n");
    assert_eq!(text(&status_line_bytes(Version::Http10, 404)), "HTTP/1.0 404 Not Found\r\n");
    assert_eq!(text(&status_line_bytes(Version::H2, 400)), "HTTP/2.0 400 Bad Request\r\n");
    assert_eq!(
        text(&status_line_bytes(Version::Http11, 599)),
        "HTTP/1.1 599 <unknown status code>\r\n"
    );
    assert_eq!(
        text(&status_line_bytes(Version::Http11, 7)),
        "HTTP/1.1 7 <unknown status code>\r\n"
    );
    assert_eq!(
        text(&status_line_from(Version::H3, 65535, Some("Odd"))),
        "HTTP/3.0 65535 Odd\r\n"
    );
    assert_eq!(text(&status_line_from(Version::Http09, 0, None)), "HTTP/0.9 0 <unknown status code>\r\n");
}

#[test]
fn text_responses_declare_their_length() {
    let mut response = Response::new(Version::Http11, Writer::new(options()));
    response.status = 200;
    response.body.body = String::from("héllo");
    match response.responser() {
        ResponsePlan::Send(bytes) => assert_eq!(
            text(&bytes),
            "HTTP/1.1 200 OK\r\ncontent-type: application/json\r\ncontent-length: 6\r\n\r\nhéllo"
        ),
        _ => panic!("a text response is sent whole"),
    }
    assert_eq!(response.status, 200);
    assert_eq!(response.headers.len(), 1);
}

#[test]
fn an_empty_response_declares_length_zero() {
    let mut response = Response::new(Version::Http10, Writer::new(options()));
    match response.responser() {
        ResponsePlan::Send(bytes) => assert_eq!(
            text(&bytes),
            "HTTP/1.0 400 Bad Request\r\ncontent-type: application/json\r\ncontent-length: 0\r\n\r\n"
        ),
        _ => panic!("an empty response is sent whole"),
    }
}

#[test]
fn byte_responses_win_over_text_and_declare_their_length() {
    let mut response = Response::new(Version::Http11, Writer::new(options()));
    response.status = 201;
    response.headers = vec![Header::new(b"x-a", b"1"), Header::new(b"x-b", b"2")];
    response.body.body = String::from("ignored");
    response.body.bytes = vec![0, 159, 146, 150];
    match response.responser() {
        ResponsePlan::Send(bytes) => {
            let mut expected =
                b"HTTP/1.1 201 Created\r\nx-a: 1\r\nx-b: 2\r\ncontent-length: 4\r\n\r\n".to_vec();
            expected.extend_from_slice(&[0, 159, 146, 150]);
            assert_eq!(bytes, expected);
        }
        _ => panic!("a byte response is sent whole"),
    }
}

#[test]
fn small_files_are_marked_for_the_cache() {
    let mut writer = Writer::new(options());
    writer.response_file("/srv/a.txt", Some(10 * 1024 * 1024));
    assert!(writer.use_file);
    assert_eq!(writer.body, "__ZERO_COPY_FILE__:/srv/a.txt");
    writer.response_file("/srv/a.txt", Some(10 * 1024 * 1024 + 1));
    assert_eq!(writer.body, "/srv/a.txt");
    writer.response_file("/srv/b.txt", None);
    assert_eq!(writer.body, "/srv/b.txt");
}

#[test]
fn a_marked_file_is_served_through_the_cache() {
    let mut response = Response::new(Version::Http11, Writer::new(options()));
    response.headers.push(Header::new(b"x-extra", b"1"));
    response.body.response_file("/srv/data/report.json", Some(10));
    match response.responser() {
        ResponsePlan::ZeroCopyFile { send_string, path } => {
            assert_eq!(text(&send_string), "HTTP/1.1 200 OK\r\n");
            assert_eq!(text(&path), "/srv/data/report.json");
            let head = response.send_zero_copy_file(send_string, 1234);
            assert_eq!(
                text(&head),
                "HTTP/1.1 200 OK\r\nContent-Type: application/json\r\nx-extra: 1\r\ncontent-length: 1234\r\n\r\n"
            );
        }
        _ => panic!("a marked file goes through the cache"),
    }
    assert_eq!(response.status, 200);
    assert_eq!(response.headers.len(), 1);
    assert_eq!(response.headers[0].name, b"x-extra".to_vec());
}

#[test]
fn an_archive_is_sent_as_an_attachment() {
    let mut response = Response::new(Version::Http11, Writer::new(options()));
    response.headers = vec![Header::new(b"Content-Type", b"text/plain")];
    response.body.response_file("/srv/files/all.zip", Some(5));
    match response.responser() {
        ResponsePlan::ZeroCopyFile { send_string, path: _ } => {
            let head = response.send_zero_copy_file(send_string, 5);
            assert_eq!(
                text(&head),
                "HTTP/1.1 200 OK\r\nContent-Type: application/zip\r\ncontent-disposition: attachment; filename=all.zip\r\ncontent-length: 5\r\n\r\n"
            );
        }
        _ => panic!("a marked file goes through the cache"),
    }
    assert!(response.headers.is_empty());

    let mut response = Response::new(Version::Http11, Writer::new(options()));
    response.body.response_file("/srv/files/all.zip", None);
    match response.responser() {
        ResponsePlan::StreamFile { head, path } => {
            assert_eq!(text(&path), "/srv/files/all.zip");
            assert_eq!(
                text(&file_head(head, 77)),
                "HTTP/1.1 200 OK\r\nContent-Type: application/zip\r\ncontent-disposition: attachment; filename=/srv/files/all.zip\r\ncontent-length: 77\r\n\r\n"
            );
        }
        _ => panic!("an unmarked file is streamed"),
    }
}

#[test]
fn a_streamed_file_gets_its_type_by_extension() {
    let mut response = Response::new(Version::Http11, Writer::new(options()));
    response.body.response_file("/srv/index.html", None);
    match response.responser() {
        ResponsePlan::StreamFile { head, path: _ } => assert_eq!(
            text(&file_head(head, 0)),
            "HTTP/1.1 200 OK\r\nContent-Type: text/html\r\ncontent-length: 0\r\n\r\n"
        ),
        _ => panic!("an unmarked file is streamed"),
    }
}

#[test]
fn content_types_fall_back_to_the_generic_binary_type() {
    assert_eq!(text(&get_content_type(b"a/b/c.png")), "image/png");
    assert_eq!(text(&get_content_type(b"style.CSS")), "text/css");
    assert_eq!(text(&get_content_type(b"noextension")), "application/octet-stream");
    assert_eq!(text(&get_content_type(b"weird.qqqzzz")), "application/octet-stream");
    assert_eq!(text(&get_content_type(b"bad.\xff")), "application/octet-stream");
    assert_eq!(text(&get_content_type(b"")), "application/octet-stream");
    assert_eq!(text(&content_type_or_default(None)), "application/octet-stream");
    assert_eq!(text(&content_type_or_default(Some(b"x/y".to_vec()))), "x/y");
}

#[test]
fn the_stream_buffer_is_capped_at_five_mebibytes() {
    assert_eq!(stream_buffer_size(0), 0);
    assert_eq!(stream_buffer_size(1000), 1000);
    assert_eq!(stream_buffer_size(5 * 1048576 - 1), 5 * 1048576 - 1);
    assert_eq!(stream_buffer_size(5 * 1048576), 5 * 1048576);
    assert_eq!(stream_buffer_size(u64::MAX), 5 * 1048576);
}

#[test]
fn arena_responses_send_the_head_before_the_data() {
    let arena = Bump::new();
    let mut response = Response::new(Version::Http11, ArenaWriter::new(&arena, options()));
    response.status = 200;
    assert!(response.body.set_arena_response("{\"ok\":true}"));
    assert_eq!(response.body.get_response_data(), b"{\"ok\":true}");
    assert_eq!(response.body.get_response_str(), Some("{\"ok\":true}"));
    match response.responser_arena() {
        ResponsePlan::SendWithData(head) => assert_eq!(
            text(&head),
            "HTTP/1.1 200 OK\r\ncontent-type: application/json\r\ncontent-length: 11\r\n\r\n"
        ),
        _ => panic!("arena data follows its head"),
    }
}

#[test]
fn an_empty_arena_response_declares_length_zero() {
    let arena = Bump::new();
    let mut response = Response::new(Version::Http11, ArenaWriter::new(&arena, options()));
    match response.responser_arena() {
        ResponsePlan::Send(head) => assert_eq!(
            text(&head),
            "HTTP/1.1 400 Bad Request\r\ncontent-type: application/json\r\ncontent-length: 0\r\n\r\n"
        ),
        _ => panic!("an empty response is sent whole"),
    }
    response.body.use_file = true;
    assert!(matches!(response.responser_arena(), ResponsePlan::Nothing));
    assert_eq!(response.status, 200);
}

#[test]
fn arena_files_follow_the_configured_threshold() {
    let arena = Bump::new();
    let mut settings = options();
    settings.set_zero_copy_threshold(100);
    settings.enable_zero_copy_cache(false);
    assert!(!settings.enable_file_cache);
    let mut response = Response::new(Version::Http11, ArenaWriter::new(&arena, settings));
    response.body.response_file("/srv/a.bin", Some(100));
    assert_eq!(response.body.get_response_data(), b"__ZERO_COPY_FILE__:/srv/a.bin");
    match response.responser_arena() {
        ResponsePlan::ZeroCopyFile { send_string, path } => {
            let head = response.send_arena_zero_copy_file(&path, send_string, 100);
            assert_eq!(
                text(&head),
                "HTTP/1.1 200 OK\r\nContent-Type: application/octet-stream\r\ncontent-length: 100\r\n\r\n"
            );
        }
        _ => panic!("a marked file goes through the cache"),
    }
    response.body.response_file("/srv/a.bin", Some(101));
    assert_eq!(response.body.get_response_data(), b"/srv/a.bin");
    assert!(matches!(response.responser_arena(), ResponsePlan::StreamFile { .. }));
}

#[test]
fn a_writer_carries_one_kind_of_payload() {
    let mut writer = Writer::new(options());
    assert_eq!(writer.payload_kind(), PayloadKind::Empty);
    writer.body = String::from("text");
    assert_eq!(writer.payload_kind(), PayloadKind::Text);
    writer.bytes = vec![1];
    assert_eq!(writer.payload_kind(), PayloadKind::Bytes);
    writer.response_file("/a", None);
    assert_eq!(writer.payload_kind(), PayloadKind::File);
    writer.response_file("/a", Some(1));
    assert_eq!(writer.payload_kind(), PayloadKind::ZeroCopyFile);
    let arena = Bump::new();
    let mut writer = ArenaWriter::new(&arena, options());
    assert_eq!(writer.payload_kind(), PayloadKind::Empty);
    writer.set_arena_response("x");
    assert_eq!(writer.payload_kind(), PayloadKind::Bytes);
    writer.response_file("/a", Some(u64::MAX));
    assert_eq!(writer.payload_kind(), PayloadKind::File);
    writer.response_file("/a", Some(0));
    assert_eq!(writer.payload_kind(), PayloadKind::ZeroCopyFile);
}

#[test]
fn media_types_go_by_the_extension_of_the_file_name() {
    assert_eq!(text(&get_content_type(b"dir/.json")), "application/octet-stream");
    assert_eq!(text(&get_content_type(b".json")), "application/octet-stream");
    assert_eq!(text(&get_content_type(b"html")), "application/octet-stream");
    assert_eq!(text(&get_content_type(b"dir.html/readme")), "application/octet-stream");
    assert_eq!(text(&get_content_type(b"dir/.hidden.txt")), "text/plain");
    assert_eq!(text(&get_content_type(b"/srv/www/archive.tar.gz")), text(&get_content_type(b"x.gz")));
    assert_eq!(text(&get_content_type(b"page.html")), "text/html");
    assert_eq!(text(&get_content_type(b"trailing.")), "application/octet-stream");
    let paths = [
        "index.html", "a/b/c.png", "dir/.json", ".json", "html", "zip", "dir.html/readme",
        "dir/.hidden.txt", "x.tar.gz", "trailing.", "a.JS", "data.json", "deep/..", ".", "",
        "a..b", "photo.jpeg", "unknown.qqqzzz", "folder.css/", "no/dots/here",
    ];
    for path in paths {
        if path.ends_with('/') {
            continue;
        }
        let expected = match mime_guess::from_path(path).first() {
            Some(mime) => mime.to_string(),
            None => String::from("application/octet-stream"),
        };
        assert_eq!(text(&get_content_type(path.as_bytes())), expected);
    }
}

#[test]
fn a_file_named_like_an_extension_has_no_media_type_of_its_own() {
    let mut response = Response::new(Version::Http11, Writer::new(options()));
    response.body.response_file("/srv/html", None);
    match response.responser() {
        ResponsePlan::StreamFile { head, path: _ } => assert_eq!(
            text(&file_head(head, 3)),
            "HTTP/1.1 200 OK\r\nContent-Type: application/octet-stream\r\ncontent-length: 3\r\n\r\n"
        ),
        _ => panic!("an unmarked file is streamed"),
    }
}
