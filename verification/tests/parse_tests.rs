use multipart::error::MpError;
use multipart::field::{Multipart, MultipartField};
use multipart::source::MemSource;

fn src(bytes: &[u8], chunk: usize) -> MemSource {
    MemSource::new(bytes.to_vec(), chunk)
}

fn body_two_fields() -> Vec<u8> {
    let mut v = Vec::new();
    v.extend_from_slice(b"--tok\r\nContent-Disposition: form-data; name=\"a\"\r\n\r\nhello\r\n");
    v.extend_from_slice(b"--tok\r\nContent-Disposition: form-data; name=\"b\"\r\n\r\nworld\r\n");
    v.extend_from_slice(b"--tok--");
    v
}

#[test]
fn reads_two_text_fields() {
    let mut mp = Multipart::with_body(src(&body_two_fields(), 16), "tok");
    match mp.read_entry() {
        Ok(Some(MultipartField::Data { name, value })) => {
            assert_eq!(name, "a");
            assert_eq!(value, "hello");
        }
        other => panic!("unexpected first entry: {:?}", other.is_ok()),
    }
    match mp.read_entry() {
        Ok(Some(MultipartField::Data { name, value })) => {
            assert_eq!(name, "b");
            assert_eq!(value, "world");
        }
        _ => panic!("unexpected second entry"),
    }
    assert!(matches!(mp.read_entry(), Ok(None)));
    assert!(mp.is_done());
}

#[test]
fn boundary_split_across_single_byte_reads() {
    // The source delivers one byte per read, so the boundary always
    // straddles refills.
    let mut mp = Multipart::with_body(src(&body_two_fields(), 1), "tok");
    match mp.read_entry() {
        Ok(Some(MultipartField::Data { name, value })) => {
            assert_eq!(name, "a");
            assert_eq!(value, "hello");
        }
        _ => panic!("unexpected first entry"),
    }
    match mp.read_entry() {
        Ok(Some(MultipartField::Data { name, value })) => {
            assert_eq!(name, "b");
            assert_eq!(value, "world");
        }
        _ => panic!("unexpected second entry"),
    }
    assert!(matches!(mp.read_entry(), Ok(None)));
}

#[test]
fn crlf_inside_payload_preserved_and_delimiter_crlf_stripped() {
    let body = b"--t\r\nContent-Disposition: form-data; name=\"x\"\r\n\r\nline1\r\nline2\r\n--t--";
    let mut mp = Multipart::with_body(src(body, 2), "t");
    match mp.read_entry() {
        Ok(Some(MultipartField::Data { name, value })) => {
            assert_eq!(name, "x");
            // The CRLF between the lines stays; the one before the
            // boundary does not.
            assert_eq!(value, "line1\r\nline2");
        }
        _ => panic!("unexpected entry"),
    }
    assert!(matches!(mp.read_entry(), Ok(None)));
}

#[test]
fn file_entry_streams_payload() {
    let body = b"--t\r\nContent-Disposition: form-data; name=\"f\"; filename=\"a.bin\"\r\nContent-Type: application/octet-stream\r\n\r\nPAYLOAD\r\n--t--";
    let mut mp = Multipart::with_body(src(body, 3), "t");
    match mp.read_entry() {
        Ok(Some(MultipartField::File { name, filename, content_type })) => {
            assert_eq!(name, "f");
            assert_eq!(filename.as_deref(), Some("a.bin"));
            assert_eq!(content_type, "application/octet-stream");
        }
        _ => panic!("expected file entry"),
    }
    let mut data = Vec::new();
    loop {
        match mp.read_payload_chunk(&mut data) {
            Ok(true) => break,
            Ok(false) => continue,
            Err(_) => panic!("payload read failed"),
        }
    }
    assert_eq!(data, b"PAYLOAD".to_vec());
    assert!(matches!(mp.read_entry(), Ok(None)));
}

#[test]
fn file_without_content_type_defaults_to_text_plain() {
    let body = b"--t\r\nContent-Disposition: form-data; name=\"f\"; filename=\"x\"\r\n\r\nz\r\n--t--";
    let mut mp = Multipart::with_body(src(body, 5), "t");
    match mp.read_entry() {
        Ok(Some(MultipartField::File { content_type, .. })) => {
            assert_eq!(content_type, "text/plain");
        }
        _ => panic!("expected file entry"),
    }
}

#[test]
fn abandoned_file_payload_does_not_corrupt_next_entry() {
    // Abandon the file payload after reading zero bytes; the next entry
    // must still come out right.
    let body = b"--t\r\nContent-Disposition: form-data; name=\"f\"; filename=\"a\"\r\n\r\nBIGPAYLOAD\r\n--t\r\nContent-Disposition: form-data; name=\"k\"\r\n\r\nv\r\n--t--";
    let mut mp = Multipart::with_body(src(body, 1), "t");
    assert!(matches!(
        mp.read_entry(),
        Ok(Some(MultipartField::File { .. }))
    ));
    match mp.read_entry() {
        Ok(Some(MultipartField::Data { name, value })) => {
            assert_eq!(name, "k");
            assert_eq!(value, "v");
        }
        _ => panic!("next entry after abandoned payload is wrong"),
    }
    assert!(matches!(mp.read_entry(), Ok(None)));
}

#[test]
fn empty_body_reaches_end_after_single_boundary() {
    let mut mp = Multipart::with_body(src(b"--tok--", 4), "tok");
    assert!(matches!(mp.read_entry(), Ok(None)));
    assert!(mp.is_done());
    // Later calls keep reporting the end, not an error.
    assert!(matches!(mp.read_entry(), Ok(None)));
}

#[test]
fn missing_boundary_is_truncated_not_empty() {
    let mut mp = Multipart::with_body(src(b"no delimiters anywhere", 4), "tok");
    assert!(matches!(mp.read_entry(), Err(MpError::Truncated)));
    // After the error the machine reports the end.
    assert!(matches!(mp.read_entry(), Ok(None)));
}

#[test]
fn boundary_followed_by_junk_is_malformed() {
    let mut mp = Multipart::with_body(src(b"--tokXY", 4), "tok");
    assert!(matches!(mp.read_entry(), Err(MpError::MalformedBoundary)));
}

#[test]
fn headers_without_name_are_malformed() {
    let body = b"--t\r\nContent-Disposition: form-data\r\n\r\nv\r\n--t--";
    let mut mp = Multipart::with_body(src(body, 8), "t");
    match mp.read_entry() {
        Err(MpError::MalformedHeaders(block)) => {
            // The raw header block comes back for diagnostics.
            assert_eq!(block, b"Content-Disposition: form-data\r\n".to_vec());
        }
        _ => panic!("expected malformed headers"),
    }
}

#[test]
fn invalid_utf8_text_field_reports_the_field() {
    let mut body = Vec::new();
    body.extend_from_slice(b"--t\r\nContent-Disposition: form-data; name=\"bad\"\r\n\r\n");
    body.extend_from_slice(&[0xFF, 0xFE]);
    body.extend_from_slice(b"\r\n--t--");
    let mut mp = Multipart::with_body(src(&body, 4), "t");
    match mp.read_entry() {
        Err(MpError::InvalidText(name)) => assert_eq!(name, "bad"),
        _ => panic!("expected invalid-text error"),
    }
}

#[test]
fn preamble_before_first_boundary_is_skipped() {
    let body = b"preamble junk\r\n--t\r\nContent-Disposition: form-data; name=\"a\"\r\n\r\n1\r\n--t--";
    let mut mp = Multipart::with_body(src(body, 6), "t");
    match mp.read_entry() {
        Ok(Some(MultipartField::Data { name, value })) => {
            assert_eq!(name, "a");
            assert_eq!(value, "1");
        }
        _ => panic!("expected data entry after preamble"),
    }
}

#[test]
fn empty_payload_field() {
    let body = b"--t\r\nContent-Disposition: form-data; name=\"e\"\r\n\r\n\r\n--t--";
    let mut mp = Multipart::with_body(src(body, 2), "t");
    match mp.read_entry() {
        Ok(Some(MultipartField::Data { name, value })) => {
            assert_eq!(name, "e");
            assert_eq!(value, "");
        }
        _ => panic!("expected empty data entry"),
    }
}

#[test]
fn malformed_headers_allow_continuing_to_next_part() {
    // The part without a name parameter is reported as malformed, but the
    // stream position stays consistent: the next part still parses.
    let body = b"--t\r\nContent-Disposition: form-data\r\n\r\njunk\r\n--t\r\nContent-Disposition: form-data; name=\"ok\"\r\n\r\nfine\r\n--t--";
    let mut mp = Multipart::with_body(src(body, 3), "t");
    assert!(matches!(mp.read_entry(), Err(MpError::MalformedHeaders(_))));
    match mp.read_entry() {
        Ok(Some(MultipartField::Data { name, value })) => {
            assert_eq!(name, "ok");
            assert_eq!(value, "fine");
        }
        _ => panic!("could not continue past the malformed part"),
    }
    assert!(matches!(mp.read_entry(), Ok(None)));
}

#[test]
fn invalid_text_field_allows_continuing() {
    let mut body = Vec::new();
    body.extend_from_slice(b"--t\r\nContent-Disposition: form-data; name=\"bad\"\r\n\r\n");
    body.extend_from_slice(&[0xFF]);
    body.extend_from_slice(b"\r\n--t\r\nContent-Disposition: form-data; name=\"good\"\r\n\r\nv\r\n--t--");
    let mut mp = Multipart::with_body(src(&body, 4), "t");
    assert!(matches!(mp.read_entry(), Err(MpError::InvalidText(_))));
    match mp.read_entry() {
        Ok(Some(MultipartField::Data { name, value })) => {
            assert_eq!(name, "good");
            assert_eq!(value, "v");
        }
        _ => panic!("could not continue past the undecodable field"),
    }
}
