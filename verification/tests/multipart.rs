use atomic_http::arena::ArenaBody;
use atomic_http::multipart::{
    extract_content_disposition_value, find_slice_in_arena, parse_multipart, read_form, strip,
    ArenaForm, ArenaHeaderRef, ArenaPartRef, ArenaTextFieldRef, Form, GetHeaderChild,
    MultipartError, Part, RequestUtils, RequestUtilsArena, StringUtil,
};
use atomic_http::request::{get_request, parse_http_request_arena};
use atomic_http::server::{
    accept_backoff, is_connection_error, parse_switch, route, route_from, setting_named,
    AcceptFailure, Route, Setting,
};
use atomic_http::options::Options;
use atomic_http::test_data::TestData;
use bumpalo::Bump;

const BODY: &[u8] = b"--XYZ\r\nContent-Disposition: form-data; name=\"title\"\r\n\r\nhello\r\n--XYZ\r\nContent-Disposition: form-data; name=\"file\"; filename=\"a.txt\"\r\nContent-Type: text/plain\r\n\r\nfile body\r\n--XYZ--\r\n";

#[test]
fn a_form_is_read_into_fields_and_parts() {
    let form = read_form(BODY, b"XYZ").unwrap();
    assert_eq!(form.text_fields.len(), 1);
    assert_eq!(form.get_text_field_name(0), Some("title"));
    assert_eq!(form.get_text_field_value(0), Some("hello\r\n"));
    assert_eq!(form.get_text_field_name(1), None);
    assert_eq!(form.get_text_field_value(1), None);
    assert_eq!(form.find_text_field("title"), Some("hello\r\n"));
    assert_eq!(form.find_text_field("other"), None);
    assert_eq!(form.find_text_field(""), None);
    assert_eq!(form.parts.len(), 1);
    let part = form.get_part(0).unwrap();
    assert!(form.get_part(1).is_none());
    assert_eq!(part.get_name(), Some("file"));
    assert_eq!(part.get_file_name(), Some("a.txt"));
    assert_eq!(part.get_content_type(), Some("text/plain"));
    assert_eq!(part.get_body(), b"file body\r\n");
    assert_eq!(part.headers.len(), 2);
    assert_eq!(part.headers[0].get_key(), Some("Content-Disposition"));
    assert_eq!(part.headers[0].get_value(), Some("form-data; name=\"file\"; filename=\"a.txt\""));
    assert_eq!(part.find_header("content-type"), Some("text/plain"));
    assert_eq!(part.find_header("CONTENT-TYPE"), Some("text/plain"));
    assert_eq!(part.find_header("x-none"), None);
    assert_eq!(form.find_file_part("file").unwrap().get_file_name(), Some("a.txt"));
    assert!(form.find_file_part("title").is_none());
}

#[test]
fn the_media_type_decides_whether_there_is_a_form() {
    assert!(matches!(parse_multipart(b"application/json", BODY), Ok(None)));
    assert!(matches!(
        parse_multipart(b"multipart/form-data", BODY),
        Err(MultipartError::BoundaryNotFound)
    ));
    let form = parse_multipart(b"multipart/form-data; boundary=XYZ", BODY).unwrap().unwrap();
    assert_eq!(form.parts.len(), 1);
    assert_eq!(form.arena_data, BODY);
    let broken = b"--B\r\nContent-Disposition: form-data; name=\"\xff\"\r\n\r\nx\r\n--B--\r\n";
    assert!(matches!(
        parse_multipart(b"multipart/form-data; boundary=B", broken),
        Err(MultipartError::PartNotText)
    ));
    assert!(read_form(broken, b"B").is_none());
}

#[test]
fn requests_read_their_forms() {
    let mut message = b"POST /up HTTP/1.1\r\nContent-Type: multipart/form-data; boundary=XYZ\r\n\r\n".to_vec();
    let header_end = message.len();
    message.extend_from_slice(BODY);

    let arena = Bump::new();
    let request =
        parse_http_request_arena(ArenaBody::new(&arena, &message, header_end, header_end));
    let form = request.get_multi_part_arena().unwrap().unwrap();
    assert_eq!(form.find_text_field("title"), Some("hello\r\n"));
    assert_eq!(request.get_text_arena().map(|t| t.len()), Some(BODY.len()));

    let mut owned = get_request(&message);
    let form = owned.get_multi_part().unwrap().unwrap();
    assert_eq!(form.text, (String::from("title"), String::from("hello\r\n")));
    assert_eq!(form.parts.len(), 1);
    assert_eq!(form.parts[0].name, "file");
    assert_eq!(form.parts[0].file_name, "a.txt");
    assert_eq!(form.parts[0].body, b"file body\r\n".to_vec());
    assert_eq!(form.parts[0].headers.len(), 2);
    assert_eq!(form.parts[0].headers[1].name, b"Content-Type".to_vec());
    assert_eq!(owned.get_text().len(), BODY.len());

    let mut plain = get_request(b"POST / HTTP/1.1\r\nContent-Type: text/plain\r\n\r\nx");
    assert!(matches!(plain.get_multi_part(), Ok(None)));
    let mut none = get_request(b"POST / HTTP/1.1\r\n\r\nx");
    assert!(matches!(none.get_multi_part(), Ok(None)));
    let mut odd = get_request(b"POST / HTTP/1.1\r\nContent-Type: multipart/form-data\x01\r\n\r\nx");
    assert!(matches!(odd.get_multi_part(), Err(MultipartError::HeaderNotText)));
}

#[test]
fn disposition_values_lose_their_quotes() {
    let header: &[u8] = b"form-data; name=\"field\"; filename='file.txt'";
    assert_eq!(extract_content_disposition_value(header, b"name"), Some(b"field".as_slice()));
    assert_eq!(extract_content_disposition_value(header, b"filename"), Some(b"file.txt".as_slice()));
    assert_eq!(extract_content_disposition_value(header, b"size"), None);
    assert_eq!(extract_content_disposition_value(b"name=", b"name"), Some(b"".as_slice()));
    assert_eq!(extract_content_disposition_value(b"name", b"name"), None);
    assert_eq!(extract_content_disposition_value(b" \tname=\"'a'\" ", b"name"), Some(b"a".as_slice()));
    assert_eq!(header.get_header_child(), vec![
        (b"name".as_slice(), b"field".as_slice()),
        (b"filename".as_slice(), b"file.txt".as_slice()),
    ]);
    let spaced: &[u8] = b"a = 1 ;b;=c; d=\"e=f\"";
    assert_eq!(spaced.get_header_child(), vec![
        (b"a".as_slice(), b"1".as_slice()),
        (b"".as_slice(), b"c".as_slice()),
        (b"d".as_slice(), b"e=f".as_slice()),
    ]);
    assert_eq!(strip(b"\"\"a\"b\"", b'"'), b"a\"b");
    assert_eq!(strip(b"\"\"", b'"'), b"");
}

#[test]
fn slices_are_found_where_they_first_stand() {
    let arena: &[u8] = b"abcabc";
    let found = find_slice_in_arena(arena, b"bc").unwrap();
    assert_eq!(found, b"bc");
    assert_eq!(found.as_ptr(), arena[1..].as_ptr());
    assert!(find_slice_in_arena(arena, b"").is_none());
    assert!(find_slice_in_arena(arena, b"cb").is_none());
}

#[test]
fn views_without_bytes_stand_for_missing_values() {
    let part = ArenaPartRef::new(b"body");
    assert_eq!(part.get_name(), None);
    assert_eq!(part.get_file_name(), None);
    assert_eq!(part.get_content_type(), Some("application/octet-stream"));
    assert_eq!(part.get_body(), b"body");
    let mut part = part;
    part.set_name(b"n");
    part.set_file_name(b"f");
    part.set_content_type(b"\xff");
    assert_eq!(part.get_name(), Some("n"));
    assert_eq!(part.get_file_name(), Some("f"));
    assert_eq!(part.get_content_type(), None);
    let field = ArenaTextFieldRef::new(b"k", b"");
    assert_eq!(field.get_name(), Some("k"));
    assert_eq!(field.get_value(), None);
    let header = ArenaHeaderRef::new(b"", b"v");
    assert_eq!(header.get_key(), None);
    assert_eq!(header.get_value(), Some("v"));
    let form = ArenaForm::new(b"data");
    assert!(form.text_fields.is_empty() && form.parts.is_empty());
    assert_eq!(form.arena_data, b"data");
}

#[test]
fn owned_forms_are_built_by_hand() {
    let mut form = Form::new();
    assert_eq!(form.text, (String::new(), String::new()));
    form.add_text_field(String::from("a"), String::from("b"));
    let mut part = Part::new();
    part.set_name("n");
    part.set_file_name("f.bin");
    form.add_part(part);
    assert_eq!(form.text, (String::from("a"), String::from("b")));
    assert_eq!(form.parts[0].name, "n");
    assert_eq!(form.parts[0].file_name, "f.bin");
    assert_eq!(String::from("copy").copy_string(), "copy");
}

#[test]
fn accept_failures_of_one_connection_are_reported_at_once() {
    assert!(is_connection_error(AcceptFailure::ConnectionRefused));
    assert!(is_connection_error(AcceptFailure::ConnectionAborted));
    assert!(is_connection_error(AcceptFailure::ConnectionReset));
    assert!(!is_connection_error(AcceptFailure::Other));
    assert_eq!(accept_backoff(AcceptFailure::ConnectionReset), 0);
    assert_eq!(accept_backoff(AcceptFailure::Other), 1);
}

#[test]
fn the_environment_sets_options() {
    let mut options = Options::new(String::from("/srv"));
    assert!(options.set_from_env("NO_DELAY", "false"));
    assert!(!options.no_delay);
    assert!(!options.set_from_env("NO_DELAY", "yes"));
    assert!(options.set_from_env("READ_TIMEOUT_MILISECONDS", "250"));
    assert_eq!(options.read_timeout_miliseconds, 250);
    assert!(options.set_from_env("ROOT_PATH", "/var/www"));
    assert_eq!(options.root_path, "/var/www");
    assert!(options.set_from_env("READ_BUFFER_SIZE", "8192"));
    assert_eq!(options.read_buffer_size, 8192);
    assert!(options.set_from_env("READ_MAX_RETRY", "255"));
    assert_eq!(options.read_max_retry, 255);
    assert!(!options.set_from_env("READ_MAX_RETRY", "256"));
    assert_eq!(options.read_max_retry, 255);
    assert!(options.set_from_env("READ_IMCOMPLETE_SIZE", "+7"));
    assert_eq!(options.read_imcomplete_size, 7);
    assert!(options.set_from_env("ZERO_COPY_THRESHOLD", "0"));
    assert_eq!(options.zero_copy_threshold, 0);
    assert!(options.set_from_env("ENABLE_FILE_CACHE", "false"));
    assert!(!options.enable_file_cache);
    assert!(!options.set_from_env("ZERO_COPY_THRESHOLD", " 1"));
    assert!(!options.set_from_env("UNKNOWN", "1"));
    assert_eq!(parse_switch(b"true"), Some(true));
    assert_eq!(parse_switch(b"TRUE"), None);
    assert_eq!(setting_named(b"ROOT_PATH"), Some(Setting::RootPath));
    assert_eq!(setting_named(b"root_path"), None);
    let copy = options.clone();
    assert_eq!(copy.root_path, "/var/www");
    assert_eq!(copy.read_max_retry, 255);
}

#[test]
fn sample_records_have_the_size_asked_for() {
    let data = TestData::generate(1);
    assert_eq!(data.id, 12345);
    assert_eq!(data.name, "test_user_with_longer_name_for_realistic_data");
    assert_eq!(data.email, "test.user.with.longer.email@example.com");
    assert_eq!(data.description, "x".repeat(206));
    assert_eq!(data.payload, vec![0u8; 618]);
    assert_eq!(data.tags, vec!["tag1", "tag2", "performance", "test", "benchmark"]);
    assert_eq!(data.metadata, vec!["metadata1", "metadata2", "some_additional_info"]);
    let data = TestData::generate(0);
    assert_eq!(data.description, "");
    assert!(data.payload.is_empty());
}

#[test]
fn requests_for_files_are_routed_by_their_path() {
    assert!(matches!(route(false, b"/a.html"), Some(Route::Respond)));
    assert!(matches!(route(true, b"/"), Some(Route::Respond)));
    assert!(matches!(route(true, b"/about"), Some(Route::Index)));
    assert!(matches!(route(true, b""), Some(Route::Index)));
    match route(true, b"/a%20b.html") {
        Some(Route::File(path)) => assert_eq!(path, b"a b.html".to_vec()),
        _ => panic!("a path with a dot names a file"),
    }
    match route(true, b"/css/site.css") {
        Some(Route::File(path)) => assert_eq!(path, b"css/site.css".to_vec()),
        _ => panic!("a path with a dot names a file"),
    }
    assert!(route(true, b"/a%ff.html").is_none());
    assert!(route(true, &[b'/', 0xff, b'.', b'x']).is_none());
    assert!(matches!(route_from(true, b"/x.y", Some(b"z".to_vec())), Some(Route::File(_))));
    assert!(route_from(true, b"/x.y", None).is_none());
    assert!(matches!(route_from(true, b"/xy", None), Some(Route::Index)));
}
