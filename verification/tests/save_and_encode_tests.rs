use multipart::encode::{encode_fields, EncodeField};
use multipart::field::{Multipart, MultipartField};
use multipart::request::{extract_boundary, multipart_boundary_of, MockRequest, MultipartHandler, Switch};
use multipart::save::{PartialReason, SaveBuilder, SaveResult};
use multipart::source::MemSource;
use std::cell::Cell;

fn src(bytes: &[u8], chunk: usize) -> MemSource {
    MemSource::new(bytes.to_vec(), chunk)
}

fn text_field(name: &str, value: &str) -> EncodeField {
    EncodeField {
        name: name.to_string(),
        filename: None,
        content_type: None,
        content: value.as_bytes().to_vec(),
    }
}

fn file_field(name: &str, filename: &str, ct: &str, content: &[u8]) -> EncodeField {
    EncodeField {
        name: name.to_string(),
        filename: Some(filename.to_string()),
        content_type: Some(ct.to_string()),
        content: content.to_vec(),
    }
}

#[test]
fn encode_produces_exact_wire_bytes() {
    let fields = vec![text_field("a", "hi")];
    let bytes = encode_fields("tok", &fields);
    let expected =
        b"--tok\r\nContent-Disposition: form-data; name=\"a\"\r\n\r\nhi\r\n--tok--".to_vec();
    assert_eq!(bytes, expected);
}

#[test]
fn encode_then_parse_round_trips() {
    // Encoding fields with a boundary and parsing with the same boundary
    // reproduces them: order kept, payloads byte-identical.
    let fields = vec![
        text_field("alpha", "first value"),
        file_field("up", "a.bin", "application/octet-stream", b"\x00\x01\x02binary\xFF"),
        text_field("omega", "last"),
    ];
    let bytes = encode_fields("XyZ123", &fields);
    // One byte per read, so every delimiter straddles refills too.
    let mut mp = Multipart::with_body(src(&bytes, 1), "XyZ123");
    match mp.read_entry() {
        Ok(Some(MultipartField::Data { name, value })) => {
            assert_eq!(name, "alpha");
            assert_eq!(value, "first value");
        }
        _ => panic!("first field wrong"),
    }
    match mp.read_entry() {
        Ok(Some(MultipartField::File { name, filename, content_type })) => {
            assert_eq!(name, "up");
            assert_eq!(filename.as_deref(), Some("a.bin"));
            assert_eq!(content_type, "application/octet-stream");
        }
        _ => panic!("file field wrong"),
    }
    let mut data = Vec::new();
    loop {
        match mp.read_payload_chunk(&mut data) {
            Ok(true) => break,
            Ok(false) => continue,
            Err(_) => panic!("payload failed"),
        }
    }
    assert_eq!(data, b"\x00\x01\x02binary\xFF".to_vec());
    match mp.read_entry() {
        Ok(Some(MultipartField::Data { name, value })) => {
            assert_eq!(name, "omega");
            assert_eq!(value, "last");
        }
        _ => panic!("last field wrong"),
    }
    assert!(matches!(mp.read_entry(), Ok(None)));
}

#[test]
fn save_collects_fields_and_files() {
    let fields = vec![
        text_field("a", "1"),
        file_field("f", "n.txt", "text/plain", b"abc"),
        text_field("b", "2"),
    ];
    let bytes = encode_fields("t", &fields);
    let mut mp = Multipart::with_body(src(&bytes, 7), "t");
    match mp.save() {
        SaveResult::Full(entries) => {
            assert_eq!(entries.fields.len(), 2);
            assert_eq!(entries.fields[0].0, "a");
            assert_eq!(entries.fields[0].1, "1");
            assert_eq!(entries.fields[1].0, "b");
            assert_eq!(entries.fields[1].1, "2");
            assert_eq!(entries.files.len(), 1);
            assert_eq!(entries.files[0].0, "f");
            let saved = &entries.files[0].1;
            assert_eq!(saved.filename.as_deref(), Some("n.txt"));
            assert_eq!(saved.content_type, "text/plain");
            assert_eq!(saved.data, b"abc".to_vec());
            assert_eq!(saved.stored_name.len(), 16);
            assert!(saved.stored_name.chars().all(|c| c.is_ascii_alphanumeric()));
        }
        _ => panic!("expected full save"),
    }
}

#[test]
fn size_limit_exact_succeeds_one_more_is_partial() {
    // A file of exactly the limit passes in full.
    let fields = vec![file_field("f", "x", "text/plain", &[7u8; 8])];
    let bytes = encode_fields("t", &fields);
    let mut mp = Multipart::with_body(src(&bytes, 3), "t");
    let b = SaveBuilder::new().size_limit(8);
    match b.save_all(&mut mp) {
        SaveResult::Full(entries) => {
            assert_eq!(entries.files.len(), 1);
            assert_eq!(entries.files[0].1.data.len(), 8);
        }
        _ => panic!("expected full save at the exact limit"),
    }
    // One byte more names the offending field in a partial outcome.
    let fields = vec![file_field("big", "x", "text/plain", &[7u8; 9])];
    let bytes = encode_fields("t", &fields);
    let mut mp = Multipart::with_body(src(&bytes, 3), "t");
    let b = SaveBuilder::new().size_limit(8);
    match b.save_all(&mut mp) {
        SaveResult::Partial(entries, PartialReason::SizeLimit(field)) => {
            assert_eq!(field, "big");
            assert_eq!(entries.files.len(), 0);
        }
        _ => panic!("expected partial save over the limit"),
    }
}

#[test]
fn count_limit_stops_with_partial() {
    let fields = vec![text_field("a", "1"), text_field("b", "2"), text_field("c", "3")];
    let bytes = encode_fields("t", &fields);
    let mut mp = Multipart::with_body(src(&bytes, 5), "t");
    let b = SaveBuilder::new().count_limit(2);
    match b.save_all(&mut mp) {
        SaveResult::Partial(entries, PartialReason::FieldLimit) => {
            assert_eq!(entries.fields.len(), 2);
            assert_eq!(entries.fields[0].0, "a");
            assert_eq!(entries.fields[1].0, "b");
        }
        _ => panic!("expected field-limit partial"),
    }
}

#[test]
fn skipped_fields_are_drained_not_stored() {
    let fields = vec![
        text_field("keep", "yes"),
        file_field("drop", "x", "text/plain", b"ignored"),
        text_field("keep2", "also"),
    ];
    let bytes = encode_fields("t", &fields);
    let mut mp = Multipart::with_body(src(&bytes, 4), "t");
    let b = SaveBuilder::new().skip_field("drop".to_string());
    match b.save_all(&mut mp) {
        SaveResult::Full(entries) => {
            assert_eq!(entries.fields.len(), 2);
            assert_eq!(entries.files.len(), 0);
        }
        _ => panic!("expected full save with skipped field"),
    }
}

#[test]
fn truncated_body_yields_error_with_entries_so_far() {
    let body = b"--t\r\nContent-Disposition: form-data; name=\"a\"\r\n\r\n1\r\n--t\r\nContent-Disposition: form-data; name=\"b\"\r\n\r\nnever ends";
    let mut mp = Multipart::with_body(src(body, 4), "t");
    match mp.save() {
        SaveResult::Error(entries, _) => {
            assert_eq!(entries.fields.len(), 1);
            assert_eq!(entries.fields[0].0, "a");
        }
        _ => panic!("expected error outcome"),
    }
}

#[test]
fn extract_boundary_finds_token() {
    assert_eq!(
        extract_boundary("multipart/form-data; boundary=abc123").as_deref(),
        Some("abc123")
    );
    assert_eq!(
        extract_boundary("multipart/form-data; boundary=abc; charset=utf-8").as_deref(),
        Some("abc")
    );
    assert_eq!(extract_boundary("text/plain"), None);
}

#[test]
fn from_request_wraps_multipart_and_returns_other_requests() {
    let body = b"--t\r\nContent-Disposition: form-data; name=\"q\"\r\n\r\nz\r\n--t--".to_vec();
    let req = MockRequest { boundary: Some("t".to_string()), body, chunk: 2 };
    let mut mp = match Multipart::from_request(req) {
        Ok(mp) => mp,
        Err(_) => panic!("expected multipart"),
    };
    match mp.read_entry() {
        Ok(Some(MultipartField::Data { name, value })) => {
            assert_eq!(name, "q");
            assert_eq!(value, "z");
        }
        _ => panic!("wrong entry"),
    }
    let plain = MockRequest { boundary: None, body: Vec::new(), chunk: 1 };
    assert!(Multipart::from_request(plain).is_err());
}

#[test]
fn foreach_entry_visits_every_field() {
    let fields = vec![text_field("a", "1"), text_field("b", "2")];
    let bytes = encode_fields("t", &fields);
    let mut mp = Multipart::with_body(src(&bytes, 4), "t");
    let count = Cell::new(0);
    let r = mp.foreach_entry(|_field| {
        count.set(count.get() + 1);
    });
    assert!(r.is_ok());
    assert_eq!(count.get(), 2);
    assert!(mp.is_done());
}

struct CountingHandler {
    seen: Cell<usize>,
}

impl MultipartHandler<MemSource> for CountingHandler {
    fn handle_multipart(&self, mut mp: Multipart<MemSource>) {
        let mut n = 0;
        loop {
            match mp.read_entry() {
                Ok(Some(_)) => n += 1,
                _ => break,
            }
        }
        self.seen.set(n);
    }
}

#[test]
fn switch_dispatches_multipart_and_returns_the_rest() {
    let handler = CountingHandler { seen: Cell::new(0) };
    let s = Switch::new((), handler);
    let body = b"--t\r\nContent-Disposition: form-data; name=\"q\"\r\n\r\nz\r\n--t--".to_vec();
    let multi = MockRequest { boundary: Some("t".to_string()), body, chunk: 2 };
    assert!(s.handle(multi).is_none());
    let plain = MockRequest { boundary: None, body: Vec::new(), chunk: 1 };
    assert!(s.handle(plain).is_some());
}

#[test]
fn gate_requires_post_and_form_data_media_type() {
    let ct = "multipart/form-data; boundary=abc";
    assert_eq!(multipart_boundary_of(true, Some(ct)).as_deref(), Some("abc"));
    // Not a POST.
    assert_eq!(multipart_boundary_of(false, Some(ct)), None);
    // No Content-Type at all.
    assert_eq!(multipart_boundary_of(true, None), None);
    // Another media type, even with a boundary parameter.
    assert_eq!(
        multipart_boundary_of(true, Some("multipart/mixed; boundary=abc")),
        None
    );
    // The media type matches case-insensitively.
    assert_eq!(
        multipart_boundary_of(true, Some("Multipart/Form-Data; boundary=xy")).as_deref(),
        Some("xy")
    );
}

#[test]
fn header_values_with_quotes_and_spacing() {
    let body =
        b"--t\r\ncontent-disposition:  form-data ;  name = \"sp\" \r\n\r\nv\r\n--t--";
    let mut mp = Multipart::with_body(src(body, 8), "t");
    match mp.read_entry() {
        Ok(Some(MultipartField::Data { name, value })) => {
            assert_eq!(name, "sp");
            assert_eq!(value, "v");
        }
        _ => panic!("lenient header parse failed"),
    }
}
