use tiny_http_response::chunks::copy_chunked;
use tiny_http_response::stream::{BodySource, MemSource, VecSink, copy_bounded};

/// A plain chunked-transfer-coding decoder, used to check the encoder's
/// round trip: parses non-empty chunks up to the terminating sequence and
/// returns the carried bytes, or `None` on any malformed framing.
fn decode(stream: &[u8]) -> Option<Vec<u8>> {
    let mut body = Vec::new();
    let mut rest = stream;
    loop {
        let mut k = 0;
        while k < rest.len() && (rest[k] as char).is_ascii_hexdigit() {
            k += 1;
        }
        if k == 0 {
            return None;
        }
        let size_text = std::str::from_utf8(&rest[..k]).ok()?;
        let n = usize::from_str_radix(size_text, 16).ok()?;
        if rest.len() < k + 2 || rest[k] != b'\r' || rest[k + 1] != b'\n' {
            return None;
        }
        if n == 0 {
            if rest.len() == k + 4 && rest[k + 2] == b'\r' && rest[k + 3] == b'\n' {
                return Some(body);
            }
            return None;
        }
        if rest.len() < k + 2 + n + 2 || rest[k + 2 + n] != b'\r' || rest[k + 2 + n + 1] != b'\n' {
            return None;
        }
        body.extend_from_slice(&rest[k + 2..k + 2 + n]);
        rest = &rest[k + 2 + n + 2..];
    }
}

fn count_occurrences(haystack: &[u8], needle: &[u8]) -> usize {
    if needle.is_empty() || haystack.len() < needle.len() {
        return 0;
    }
    (0..=haystack.len() - needle.len()).filter(|&i| &haystack[i..i + needle.len()] == needle).count()
}

#[test]
fn chunked_round_trip_hello() {
    let body = vec![0x48, 0x65, 0x6c, 0x6c, 0x6f];
    let mut src = MemSource::new(body.clone());
    let mut sink = VecSink::new();
    copy_chunked(&mut src, &mut sink).unwrap();
    let stream = sink.into_bytes();
    assert_eq!(stream, b"5\r\nHello\r\n0\r\n\r\n");
    assert_eq!(decode(&stream), Some(body));
    assert_eq!(count_occurrences(&stream, b"0\r\n\r\n"), 1);
}

#[test]
fn chunked_empty_body_is_just_the_terminator() {
    let mut src = MemSource::new(Vec::new());
    let mut sink = VecSink::new();
    copy_chunked(&mut src, &mut sink).unwrap();
    let stream = sink.into_bytes();
    assert_eq!(stream, b"0\r\n\r\n");
    assert_eq!(decode(&stream), Some(Vec::new()));
}

#[test]
fn chunked_round_trip_large_body() {
    // Longer than one read, so the stream holds several chunks with
    // hexadecimal sizes of more than one digit.
    let body: Vec<u8> = (0..10_000u32).map(|i| (i % 251) as u8).collect();
    let mut src = MemSource::new(body.clone());
    let mut sink = VecSink::new();
    copy_chunked(&mut src, &mut sink).unwrap();
    let stream = sink.into_bytes();
    assert!(stream.starts_with(b"1000\r\n"));
    assert_eq!(decode(&stream), Some(body));
    assert!(stream.ends_with(b"0\r\n\r\n"));
}

#[test]
fn bounded_copy_stops_at_the_limit() {
    let mut src = MemSource::new(b"hello world".to_vec());
    let mut sink = VecSink::new();
    copy_bounded(&mut src, &mut sink, 5).unwrap();
    assert_eq!(sink.into_bytes(), b"hello");
}

#[test]
fn bounded_copy_short_source_ends_early() {
    let mut src = MemSource::new(b"hi".to_vec());
    let mut sink = VecSink::new();
    copy_bounded(&mut src, &mut sink, 10).unwrap();
    assert_eq!(sink.into_bytes(), b"hi");
}

#[test]
fn mem_source_reads_in_order() {
    let mut src = MemSource::new(b"abcdef".to_vec());
    let first = src.read_some(4);
    let second = src.read_some(4);
    let third = src.read_some(4);
    assert_eq!(first, b"abcd".to_vec());
    assert_eq!(second, b"ef".to_vec());
    assert!(third.is_empty());
}
