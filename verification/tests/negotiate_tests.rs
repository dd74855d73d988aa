use tiny_http_response::common::{Header, HTTPVersion, TransferEncoding};
use tiny_http_response::negotiate::choose_transfer_encoding;

fn te_header(value: &str) -> Header {
    Header::new(b"TE".to_vec(), value.as_bytes().to_vec())
}

#[test]
fn old_protocol_always_identity() {
    // Exhaustive over HTTP/0.9 and HTTP/1.0, with and without a TE header.
    for version in [HTTPVersion(0, 9), HTTPVersion(1, 0)] {
        for headers in [
            vec![],
            vec![te_header("chunked")],
            vec![te_header("chunked;q=1.0, identity;q=0")],
        ] {
            for length in [None, Some(0usize), Some(100_000usize)] {
                assert_eq!(
                    choose_transfer_encoding(&headers, &version, &length, false),
                    TransferEncoding::Identity
                );
            }
        }
    }
}

#[test]
fn threshold_decides_without_preference() {
    let v11 = HTTPVersion(1, 1);
    let no_headers: Vec<Header> = vec![];
    assert_eq!(
        choose_transfer_encoding(&no_headers, &v11, &Some(32767), false),
        TransferEncoding::Identity
    );
    assert_eq!(
        choose_transfer_encoding(&no_headers, &v11, &Some(0), false),
        TransferEncoding::Identity
    );
    assert_eq!(
        choose_transfer_encoding(&no_headers, &v11, &Some(32768), false),
        TransferEncoding::Chunked
    );
    assert_eq!(
        choose_transfer_encoding(&no_headers, &v11, &None, false),
        TransferEncoding::Chunked
    );
}

#[test]
fn trailers_force_chunked() {
    let v11 = HTTPVersion(1, 1);
    let no_headers: Vec<Header> = vec![];
    assert_eq!(
        choose_transfer_encoding(&no_headers, &v11, &Some(5), true),
        TransferEncoding::Chunked
    );
}

#[test]
fn highest_positive_weight_wins() {
    let v11 = HTTPVersion(1, 1);
    let headers = vec![te_header("identity;q=0.3, chunked;q=0.9")];
    assert_eq!(
        choose_transfer_encoding(&headers, &v11, &Some(50), false),
        TransferEncoding::Chunked
    );
    // Order of the list does not matter, only the weights.
    let headers = vec![te_header("chunked;q=0.9, identity;q=0.3")];
    assert_eq!(
        choose_transfer_encoding(&headers, &v11, &Some(50), false),
        TransferEncoding::Chunked
    );
}

#[test]
fn zero_weight_discards_an_encoding() {
    let v11 = HTTPVersion(1, 1);
    let headers = vec![te_header("chunked;q=0, identity;q=0.5, chunked;q=0.8")];
    assert_eq!(
        choose_transfer_encoding(&headers, &v11, &Some(50), false),
        TransferEncoding::Chunked
    );
    // With the later chunked entry gone, identity wins over the rejected one.
    let headers = vec![te_header("chunked;q=0, identity;q=0.5")];
    assert_eq!(
        choose_transfer_encoding(&headers, &v11, &None, false),
        TransferEncoding::Identity
    );
}

#[test]
fn unknown_encodings_are_skipped() {
    let v11 = HTTPVersion(1, 1);
    let headers = vec![te_header("gzip;q=1.0, chunked;q=0.4")];
    assert_eq!(
        choose_transfer_encoding(&headers, &v11, &Some(5), false),
        TransferEncoding::Chunked
    );
    // Nothing supported resolves: fall through to the length rule.
    let headers = vec![te_header("gzip, br")];
    assert_eq!(
        choose_transfer_encoding(&headers, &v11, &Some(5), false),
        TransferEncoding::Identity
    );
}

#[test]
fn malformed_quality_drops_the_element() {
    let v11 = HTTPVersion(1, 1);
    // The chunked element's weight does not parse, so it is dropped and
    // identity is selected.
    let headers = vec![te_header("chunked;q=abc, identity;q=0.5")];
    assert_eq!(
        choose_transfer_encoding(&headers, &v11, &None, false),
        TransferEncoding::Identity
    );
}

#[test]
fn te_field_is_case_insensitive() {
    let v11 = HTTPVersion(1, 1);
    let headers = vec![Header::new(b"te".to_vec(), b"CHUNKED".to_vec())];
    assert_eq!(
        choose_transfer_encoding(&headers, &v11, &Some(5), false),
        TransferEncoding::Chunked
    );
}
