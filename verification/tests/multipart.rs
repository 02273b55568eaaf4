use typed_openapi::multipart::{contains, encode, position, summarised};
use typed_openapi::values::Part;

const STEM: &str = "----typed-openapi-boundary";

#[test]
fn a_file_part_carries_its_filename_and_a_type() {
    let encoded = encode(&[Part::file("file", "doc.bin", b"PDF".to_vec())]);
    let text = String::from_utf8_lossy(&encoded.bytes).into_owned();
    assert!(
        text.contains("Content-Disposition: form-data; name=\"file\"; filename=\"doc.bin\""),
        "{text}"
    );
    assert!(text.contains("Content-Type: application/octet-stream"), "{text}");
    assert!(text.ends_with("--\r\n"), "{text}");
}

#[test]
fn a_file_part_is_sent_under_the_type_its_extension_names() {
    for (filename, media_type) in [
        ("receipt.pdf", "application/pdf"),
        ("RECEIPT.PDF", "application/pdf"),
        ("scan.png", "image/png"),
        ("scan.jpg", "image/jpeg"),
        ("scan.JPEG", "image/jpeg"),
        ("archive.tar.gz", "application/octet-stream"),
        ("no-extension", "application/octet-stream"),
        (".pdf", "application/octet-stream"),
    ] {
        let encoded = encode(&[Part::file("file", filename, b"x".to_vec())]);
        let text = String::from_utf8_lossy(&encoded.bytes).into_owned();
        assert!(
            text.contains(&format!("Content-Type: {media_type}\r\n")),
            "{filename}: {text}"
        );
    }
}

#[test]
fn a_text_part_carries_neither() {
    let encoded = encode(&[Part::text("kind", "invoice")]);
    let text = String::from_utf8_lossy(&encoded.bytes).into_owned();
    assert!(!text.contains("filename"), "{text}");
    assert!(!text.contains("Content-Type:"), "{text}");
    assert!(text.contains("\r\n\r\ninvoice\r\n"), "{text}");
}

#[test]
fn the_boundary_moves_aside_for_content_that_contains_it() {
    let colliding = format!("{STEM}-0").into_bytes();
    let encoded = encode(&[Part::file("file", "f", colliding)]);
    assert!(
        encoded.content_type.ends_with(&format!("{STEM}-1")),
        "{}",
        encoded.content_type
    );
}

#[test]
fn the_same_parts_encode_to_the_same_bytes() {
    let parts = [Part::text("a", "1"), Part::file("f", "x.bin", vec![0, 1, 2])];
    assert_eq!(encode(&parts), encode(&parts));
}

#[test]
fn a_quote_in_a_name_cannot_break_out_of_the_header() {
    let encoded = encode(&[Part::file("f", "a\"b\r\nX: y", Vec::new())]);
    let text = String::from_utf8_lossy(&encoded.bytes).into_owned();
    assert!(text.contains("filename=\"a%22b%0D%0AX: y\""), "{text}");
}

#[test]
fn a_body_encodes_exactly_as_laid_out() {
    let encoded = encode(&[Part::text("kind", "invoice")]);
    assert_eq!(
        encoded.content_type,
        format!("multipart/form-data; boundary={STEM}-0")
    );
    let expected = format!(
        "--{STEM}-0\r\nContent-Disposition: form-data; name=\"kind\"\r\n\r\ninvoice\r\n--{STEM}-0--\r\n"
    );
    assert_eq!(String::from_utf8(encoded.bytes).unwrap(), expected);
}

#[test]
fn an_empty_list_of_parts_is_only_the_closing_delimiter() {
    let encoded = encode(&[]);
    assert_eq!(encoded.bytes, format!("--{STEM}-0--\r\n").into_bytes());
}

#[test]
fn a_search_finds_the_first_place_only() {
    assert_eq!(position(b"abcabc", b"bc"), Some(1));
    assert_eq!(position(b"abc", b"abcd"), None);
    assert!(contains(b"xxyy", b"xy"));
    assert!(!contains(b"xxyy", b"yx"));
}

#[test]
fn a_summary_keeps_the_headers_and_counts_what_is_not_text() {
    let encoded = encode(&[
        Part::text("kind", "invoice"),
        Part::file("file", "receipt.pdf", vec![0x25, 0x50, 0xFF, 0xFE]),
    ]);
    let summary = summarised(&encoded.bytes, &encoded.content_type).unwrap();
    let expected = format!(
        "--{STEM}-0\r\nContent-Disposition: form-data; name=\"kind\"\r\n\r\ninvoice\r\n\
         --{STEM}-0\r\nContent-Disposition: form-data; name=\"file\"; filename=\"receipt.pdf\"\r\n\
         Content-Type: application/pdf\r\n\r\n<4 bytes>\r\n--{STEM}-0--\r\n"
    );
    assert_eq!(summary, expected);
}

#[test]
fn a_summary_refuses_what_is_not_multipart() {
    assert_eq!(summarised(b"--x--\r\n", "text/plain"), None);
    assert_eq!(summarised(b"--y--\r\n", "multipart/form-data; boundary=x"), None);
    assert_eq!(
        summarised(b"--x--\r\n", "Multipart/Form-Data; boundary=\"x\""),
        Some("--x--\r\n".to_owned())
    );
    assert_eq!(summarised(b"--x--\r\nmore", "multipart/form-data; boundary=x"), None);
}

#[test]
fn a_body_that_is_all_text_reads_back_byte_for_byte() {
    let encoded = encode(&[
        Part::text("note", "grüße\r\nzweite Zeile"),
        Part::file("file", "notes \"draft\".txt", "plain text".as_bytes().to_vec()),
        Part::text("empty", ""),
    ]);
    let text = String::from_utf8(encoded.bytes.clone()).unwrap();
    assert_eq!(summarised(&encoded.bytes, &encoded.content_type), Some(text));
}
