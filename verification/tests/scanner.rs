use atomic_http::scanner::{
    find_header_end_avx2, find_header_end_optimized, find_header_end_scalar, find_header_end_simd,
    find_header_end_sse2, find_header_end_with, ScanWidth, SplitBytes, SplitBytesArena,
};

#[test]
fn test_header_end_detection() {
    let test_cases: Vec<(&[u8], Option<usize>)> = vec![
        (b"GET / HTTP/1.1\r\nHost: example.com\r\n\r\n".as_slice(), Some(33)),
        (b"POST /api HTTP/1.1\r\nHost: example.com\r\nContent-Type: application/json\r\nContent-Length: 100\r\n\r\n".as_slice(), Some(90)),
        (b"GET / HTTP/1.1\r\nHost: example.com\r\n".as_slice(), None),
        (b"".as_slice(), None),
    ];

    for (data, expected) in test_cases {
        let result = find_header_end_optimized(data);
        assert_eq!(result, expected, "Failed for data: {:?}", std::str::from_utf8(data));
    }
}

fn all_scans(data: &[u8]) -> Vec<Option<usize>> {
    vec![
        find_header_end_scalar(data),
        find_header_end_optimized(data),
        find_header_end_sse2(data),
        find_header_end_avx2(data),
        find_header_end_simd(data),
        find_header_end_with(data, ScanWidth::Scalar),
        find_header_end_with(data, ScanWidth::Wide16),
        find_header_end_with(data, ScanWidth::Wide32),
    ]
}

#[test]
fn scans_agree_on_short_inputs() {
    let inputs: Vec<&[u8]> = vec![b"", b"\r", b"\r\n\r", b"\r\n\r\n", b"a\r\n\r\n", b"\r\r\n\r\nx"];
    let expected = vec![None, None, None, Some(0), Some(1), Some(1)];
    for (data, want) in inputs.iter().zip(expected) {
        for got in all_scans(data) {
            assert_eq!(got, want);
        }
    }
}

#[test]
fn scans_agree_when_the_delimiter_straddles_a_block() {
    for at in 0..80usize {
        let mut data = vec![b'x'; at];
        data.extend_from_slice(b"\r\n\r\n");
        data.extend_from_slice(&[b'y'; 40]);
        for got in all_scans(&data) {
            assert_eq!(got, Some(at));
        }
    }
}

#[test]
fn scans_agree_without_a_delimiter() {
    let mut data = Vec::new();
    for i in 0..200usize {
        data.push(if i % 3 == 0 { b'\r' } else { b'\n' });
    }
    for got in all_scans(&data) {
        assert_eq!(got, None);
    }
}

#[test]
fn scans_return_the_first_of_two_delimiters() {
    let mut data = vec![b'a'; 45];
    data.extend_from_slice(b"\r\n\r\n");
    data.extend_from_slice(&[b'b'; 20]);
    data.extend_from_slice(b"\r\n\r\n");
    for got in all_scans(&data) {
        assert_eq!(got, Some(45));
    }
}

#[test]
fn split_bytes_drops_empty_chunks_and_the_terminator() {
    let body: &[u8] = b"--XaaX--bbX--\r\n";
    let parts = body.split_bytes(b"X");
    assert_eq!(parts, vec![b"--".to_vec(), b"aa".to_vec(), b"--bb".to_vec()]);
    let views = body.split_bytes_arena(b"X");
    assert_eq!(views, vec![b"--".as_slice(), b"aa".as_slice(), b"--bb".as_slice()]);
}

#[test]
fn split_bytes_keeps_a_last_chunk_that_is_not_the_terminator() {
    let body: &[u8] = b"a--b--c";
    assert_eq!(body.split_bytes(b"--"), vec![b"a".to_vec(), b"b".to_vec(), b"c".to_vec()]);
    let none: &[u8] = b"";
    assert_eq!(none.split_bytes(b"--"), Vec::<Vec<u8>>::new());
}

#[test]
fn split_header_body_cuts_at_the_first_delimiter() {
    let message: &[u8] = b"GET / HTTP/1.1\r\nHost: x\r\n\r\nbody\r\n\r\nmore";
    let (header, body) = message.split_header_body();
    assert_eq!(header, b"GET / HTTP/1.1\r\nHost: x".to_vec());
    assert_eq!(body, b"body\r\n\r\nmore".to_vec());
    let (header, body) = message.split_header_body_arena();
    assert_eq!(header, b"GET / HTTP/1.1\r\nHost: x");
    assert_eq!(body, b"body\r\n\r\nmore");
    let no_end: &[u8] = b"GET / HTTP/1.1\r\n";
    let (header, body) = no_end.split_header_body();
    assert_eq!(header, no_end.to_vec());
    assert!(body.is_empty());
}

#[test]
fn overlapping_delimiters_each_start_a_new_chunk() {
    let data: &[u8] = b"aaa";
    assert_eq!(data.split_bytes(b"aa"), Vec::<Vec<u8>>::new());
    let data: &[u8] = b"xaaay";
    assert_eq!(data.split_bytes_arena(b"aa"), vec![b"x".as_slice(), b"y".as_slice()]);
    let data: &[u8] = b"abc";
    assert_eq!(data.split_bytes(b""), vec![b"a".to_vec(), b"b".to_vec(), b"c".to_vec()]);
    let data: &[u8] = b"a--\r\n";
    assert_eq!(data.split_bytes(b"a"), Vec::<Vec<u8>>::new());
}
