use atomic_http::content_length::{
    extract_content_length_fast, extract_content_length_simple, find_pattern_case_insensitive,
};
use atomic_http::options::Options;
use atomic_http::reader::{
    determine_next_read_size, IncrementalReader, Phase, ReadError, ReadEvent, ReadStep,
};
use atomic_http::request::frame_request;

#[test]
fn test_content_length_extraction() {
    let headers = b"GET / HTTP/1.1\r\nHost: example.com\r\nContent-Length: 1234\r\nUser-Agent: test\r\n\r\n";
    let result = extract_content_length_simple(headers);
    assert_eq!(result, Some(1234));

    let headers2 = b"GET / HTTP/1.1\r\nHost: example.com\r\nContent-LENGTH: 5678\r\n\r\n";
    let result2 = extract_content_length_simple(headers2);
    assert_eq!(result2, Some(5678));

    let headers3 = b"GET / HTTP/1.1\r\nHost: example.com\r\n\r\n";
    let result3 = extract_content_length_simple(headers3);
    assert_eq!(result3, None);
}

#[test]
fn test_large_header_handling() {
    let large_cookie = "x".repeat(10240);
    let large_header = format!(
        "GET / HTTP/1.1\r\nHost: example.com\r\nCookie: {}\r\nContent-Length: 100\r\n\r\n{}",
        large_cookie,
        "x".repeat(100)
    );
    let header_end = atomic_http::scanner::find_header_end_optimized(large_header.as_bytes());
    assert!(header_end.is_some());
    let content_length = extract_content_length_simple(large_header.as_bytes());
    assert_eq!(content_length, Some(100));
}

#[test]
fn content_length_simple_edge_cases() {
    assert_eq!(extract_content_length_simple(b"content-length:\t 42\r\n"), Some(42));
    assert_eq!(extract_content_length_simple(b"content-length:42"), Some(42));
    assert_eq!(extract_content_length_simple(b"content-length: abc\r\n"), None);
    assert_eq!(extract_content_length_simple(b"content-length: \r\n"), None);
    assert_eq!(extract_content_length_simple(b"content-length: 12x\r\n"), Some(12));
    assert_eq!(
        extract_content_length_simple(b"content-length: 99999999999999999999999999\r\n"),
        None
    );
    assert_eq!(
        extract_content_length_simple(b"content-length: 18446744073709551615\r\n"),
        Some(usize::MAX)
    );
    assert_eq!(extract_content_length_simple(b"X-Content-Length: 7\r\n"), Some(7));
    assert_eq!(extract_content_length_simple(b""), None);
}

#[test]
fn content_length_fast_reads_the_first_length_line() {
    assert_eq!(
        extract_content_length_fast(b"GET / HTTP/1.1\r\nContent-Length: 12\r\n\r\n"),
        Some(12)
    );
    assert_eq!(extract_content_length_fast(b"content-length:  +7 \nx: y\n"), Some(7));
    assert_eq!(extract_content_length_fast(b"X-Content-Length: 7\r\n"), None);
    assert_eq!(extract_content_length_fast(b"Content-Length: 1:2\r\n"), Some(1));
    assert_eq!(extract_content_length_fast(b"Content-Length: x\r\nContent-Length: 3\r\n"), None);
    assert_eq!(extract_content_length_fast(b"Content-Length: 3\r\n\xff"), None);
    assert_eq!(extract_content_length_fast(b"Host: x\r\n"), None);
}

#[test]
fn pattern_search_ignores_case() {
    assert_eq!(find_pattern_case_insensitive(b"abcCONTENTdef", b"content"), Some(3));
    assert_eq!(find_pattern_case_insensitive(b"abc", b"abcd"), None);
    assert_eq!(find_pattern_case_insensitive(b"abc", b""), Some(0));
    assert_eq!(find_pattern_case_insensitive(b"aXbxB", b"xb"), Some(1));
    assert_eq!(find_pattern_case_insensitive(b"abc", b"d"), None);
}

#[test]
fn next_read_size_grows_with_the_buffer() {
    assert_eq!(determine_next_read_size(0), 1024);
    assert_eq!(determine_next_read_size(512), 1024);
    assert_eq!(determine_next_read_size(513), 2048);
    assert_eq!(determine_next_read_size(4096), 2048);
    assert_eq!(determine_next_read_size(4097), 4096);
    assert_eq!(determine_next_read_size(16384), 4096);
    assert_eq!(determine_next_read_size(16385), 8192);
}

fn options_with_retries(retries: u8) -> Options {
    let mut options = Options::new(String::from("/srv"));
    options.read_max_retry = retries;
    options
}

#[test]
fn reader_fails_after_exactly_max_retry_timeouts() {
    for retries in 0u8..6 {
        let mut reader = IncrementalReader::new(&options_with_retries(retries));
        let mut attempts = 0u32;
        loop {
            match reader.step() {
                ReadStep::Read { max } => {
                    assert_eq!(max, 65536);
                    attempts += 1;
                    reader = reader.on_event(ReadEvent::TimedOut);
                }
                ReadStep::Fail(error) => {
                    assert_eq!(error, ReadError::NoData);
                    break;
                }
                ReadStep::Done => panic!("a reader that saw no byte is not complete"),
            }
            assert!(attempts <= 10);
        }
        assert_eq!(attempts, retries as u32);
    }
}

#[test]
fn reader_counts_would_block_as_a_failed_attempt() {
    let mut reader = IncrementalReader::new(&options_with_retries(2));
    reader = reader.on_event(ReadEvent::WouldBlock);
    assert_eq!(reader.retries(), 1);
    assert_eq!(reader.phase(), Phase::ReadingHeaders);
    reader = reader.on_event(ReadEvent::WouldBlock);
    assert_eq!(reader.step(), ReadStep::Fail(ReadError::NoData));
}

#[test]
fn reader_completes_a_body_that_comes_in_two_reads() {
    let mut reader = IncrementalReader::new(&options_with_retries(3));
    assert_eq!(reader.step(), ReadStep::Read { max: 65536 });
    reader = reader
        .on_event(ReadEvent::Data(b"POST /d HTTP/1.1\r\nContent-Length: 5\r\n\r\nhe".to_vec()));
    assert_eq!(reader.phase(), Phase::ReadingBody);
    assert_eq!(reader.header_end(), 39);
    assert_eq!(reader.content_length(), 5);
    assert_eq!(reader.step(), ReadStep::Read { max: 3 });
    assert!(!reader.is_complete());
    reader = reader.on_event(ReadEvent::Data(b"llo".to_vec()));
    assert_eq!(reader.step(), ReadStep::Done);
    let (buffer, header_end) = reader.into_message();
    let request = frame_request(&buffer, header_end);
    assert_eq!(request.body.bytes, b"hello".to_vec());
    assert_eq!(request.body.len, 5);
    assert_eq!(request.head.uri, b"/d".to_vec());
}

#[test]
fn reader_does_not_complete_one_byte_short_of_the_declared_length() {
    let head = b"POST / HTTP/1.1\r\nContent-Length: 4\r\n\r\n";
    for extra in 0usize..4 {
        let mut bytes = head.to_vec();
        bytes.extend_from_slice(&b"abcd"[..extra]);
        let reader = IncrementalReader::new(&options_with_retries(3))
            .on_event(ReadEvent::Data(bytes));
        assert_eq!(reader.phase(), Phase::ReadingBody);
        assert_eq!(reader.step(), ReadStep::Read { max: 4 - extra });
    }
    let mut bytes = head.to_vec();
    bytes.extend_from_slice(b"abcd");
    let reader =
        IncrementalReader::new(&options_with_retries(3)).on_event(ReadEvent::Data(bytes));
    assert_eq!(reader.step(), ReadStep::Done);
}

#[test]
fn reader_without_a_declared_length_completes_with_the_headers() {
    let reader = IncrementalReader::new(&options_with_retries(3))
        .on_event(ReadEvent::Data(b"GET /hello HTTP/1.1\r\nHost: x\r\n\r\n".to_vec()));
    assert_eq!(reader.step(), ReadStep::Done);
    assert_eq!(reader.header_end(), 32);
    assert_eq!(reader.content_length(), 0);
}

#[test]
fn reader_finds_a_delimiter_that_is_split_across_reads() {
    let mut reader = IncrementalReader::new(&options_with_retries(3));
    reader = reader.on_event(ReadEvent::Data(b"GET / HTTP/1.1\r\nHost: x\r\n\r".to_vec()));
    assert_eq!(reader.phase(), Phase::ReadingHeaders);
    reader = reader.on_event(ReadEvent::Data(b"\n".to_vec()));
    assert_eq!(reader.step(), ReadStep::Done);
    assert_eq!(reader.header_end(), 27);
}

#[test]
fn reader_fails_an_incomplete_body_when_the_attempts_run_out() {
    let mut reader = IncrementalReader::new(&options_with_retries(2));
    reader = reader
        .on_event(ReadEvent::Data(b"POST / HTTP/1.1\r\nContent-Length: 10\r\n\r\nabc".to_vec()));
    reader = reader.on_event(ReadEvent::Closed);
    assert_eq!(reader.step(), ReadStep::Read { max: 7 });
    reader = reader.on_event(ReadEvent::TimedOut);
    assert_eq!(
        reader.step(),
        ReadStep::Fail(ReadError::IncompleteBody { received: 3, expected: 10, retries: 2 })
    );
    reader = reader.on_event(ReadEvent::Data(b"defghij".to_vec()));
    assert_eq!(
        reader.step(),
        ReadStep::Fail(ReadError::IncompleteBody { received: 3, expected: 10, retries: 2 })
    );
    assert_eq!(reader.excerpt(4), b"POST");
    assert_eq!(reader.excerpt(1000).len(), 42);
}

#[test]
fn reader_resets_the_retries_when_bytes_come() {
    let mut reader = IncrementalReader::new(&options_with_retries(2));
    reader = reader.on_event(ReadEvent::TimedOut);
    assert_eq!(reader.retries(), 1);
    reader = reader.on_event(ReadEvent::Data(b"GET".to_vec()));
    assert_eq!(reader.retries(), 0);
    assert_eq!(reader.buffer(), b"GET");
}

#[test]
fn reader_reports_no_data_at_the_end_of_an_empty_stream() {
    let reader = IncrementalReader::new(&options_with_retries(3)).on_event(ReadEvent::Closed);
    assert_eq!(reader.step(), ReadStep::Fail(ReadError::NoData));
    let reader =
        IncrementalReader::new(&options_with_retries(3)).on_event(ReadEvent::Data(Vec::new()));
    assert_eq!(reader.step(), ReadStep::Fail(ReadError::NoData));
}

#[test]
fn reader_takes_a_closed_stream_as_the_end_of_the_headers() {
    let mut reader = IncrementalReader::new(&options_with_retries(3));
    reader = reader.on_event(ReadEvent::Data(b"GET / HTTP/1.1\r\n".to_vec()));
    reader = reader.on_event(ReadEvent::Closed);
    assert_eq!(reader.step(), ReadStep::Done);
    assert_eq!(reader.header_end(), 16);
}

#[test]
fn reader_propagates_a_socket_error() {
    let reader = IncrementalReader::new(&options_with_retries(3)).on_event(ReadEvent::Failed);
    assert_eq!(reader.step(), ReadStep::Fail(ReadError::Io));
    let reader = IncrementalReader::new(&options_with_retries(3))
        .on_event(ReadEvent::Data(b"POST / HTTP/1.1\r\nContent-Length: 2\r\n\r\n".to_vec()))
        .on_event(ReadEvent::Failed);
    assert_eq!(reader.step(), ReadStep::Fail(ReadError::Io));
}

#[test]
fn arena_reader_reads_headers_in_growing_steps() {
    let mut options = options_with_retries(3);
    options.read_buffer_size = 100;
    let mut reader = IncrementalReader::new_arena(&options);
    assert_eq!(reader.step(), ReadStep::Read { max: 1024 });
    reader = reader.on_event(ReadEvent::Data(vec![b'a'; 600]));
    assert_eq!(reader.step(), ReadStep::Read { max: 2048 });
    let mut head = b"\r\nContent-Length: 500\r\n\r\n".to_vec();
    head.extend_from_slice(&[b'b'; 10]);
    reader = reader.on_event(ReadEvent::Data(head));
    assert_eq!(reader.step(), ReadStep::Read { max: 100 });
}

#[test]
fn reader_gives_the_headers_up_at_the_limit() {
    let reader = IncrementalReader::with_limits(3, 8, 8, false)
        .on_event(ReadEvent::Data(b"12345678".to_vec()));
    assert_eq!(reader.step(), ReadStep::Done);
    assert_eq!(reader.header_end(), 8);
}

#[test]
fn completion_is_driven_by_the_declared_length_for_every_chunking() {
    let message = b"POST /x HTTP/1.1\r\nHost: h\r\nContent-Length: 12\r\n\r\nhello, world";
    let header_end = message.len() - 12;
    for chunk in 1..=message.len() {
        let mut reader = IncrementalReader::new(&options_with_retries(3));
        let mut fed = 0usize;
        while fed < message.len() {
            assert!(matches!(reader.step(), ReadStep::Read { .. }));
            let upto = (fed + chunk).min(message.len());
            reader = reader.on_event(ReadEvent::Data(message[fed..upto].to_vec()));
            fed = upto;
            let complete = reader.step() == ReadStep::Done;
            assert_eq!(complete, fed >= header_end + 12);
        }
        assert_eq!(reader.header_end(), header_end);
        assert_eq!(reader.content_length(), 12);
        let (buffer, end) = reader.into_message();
        assert_eq!(frame_request(&buffer, end).body.bytes, b"hello, world".to_vec());
    }
}
