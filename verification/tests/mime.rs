use remailable::mime::{
    charset_decode, decode_base64, decode_base64_to_bytes, decode_quoted_printable,
    decode_quoted_printable_to_bytes, detect_content_type_from_headers, extract_boundary,
    extract_charset, extract_multipart_body, maybe_extract_multipart, parse_email_body,
    parse_email_headers, parse_imap_fetch_headers, parse_imap_uid, try_extract_boundary,
    try_extract_charset, try_extract_multipart_body, try_maybe_extract_multipart,
    try_parse_email_body,
};

#[test]
fn imap_uid_is_read_after_the_marker() {
    assert_eq!(parse_imap_uid("* 10627 FETCH (UID 85803 RFC822.HEADER {12513}"), Some(85803));
    assert_eq!(parse_imap_uid("* 1 FETCH (FLAGS ())"), None);
    assert_eq!(parse_imap_uid("* 1 FETCH (UID x)"), None);
    assert_eq!(parse_imap_uid("UID 99999999999"), None);
    assert_eq!(parse_imap_uid("UID 4294967295)"), Some(4294967295));
}

#[test]
fn headers_are_read_with_folding_and_any_case() {
    let raw = b"Subject: Hello\r\n  world\r\nFROM: a@b.com\r\nDate: Mon, 1 Jan 2026\r\nIn-Reply-To: <p@x>\r\nX-Other: y\r\n";
    let h = parse_email_headers(raw);
    assert_eq!(h.subject, "Hello world");
    assert_eq!(h.from, "a@b.com");
    assert_eq!(h.date, "Mon, 1 Jan 2026");
    assert_eq!(h.in_reply_to, "<p@x>");
}

#[test]
fn later_header_of_the_same_name_wins() {
    let h = parse_email_headers(b"Subject: one\nSubject: two\n");
    assert_eq!(h.subject, "two");
    let h = parse_email_headers(b"no colon line\nDate:  d  \n");
    assert_eq!(h.date, "d");
    assert_eq!(h.subject, "");
}

#[test]
fn fetch_headers_read_the_literal() {
    let r = "* 3 FETCH (UID 7 RFC822.HEADER {40}\r\nSubject: Hi\r\nFrom: x@y\r\nDate: today\r\n\r\n)\r\n";
    let h = parse_imap_fetch_headers(r);
    assert_eq!(h.subject, "Hi");
    assert_eq!(h.from, "x@y");
    assert_eq!(h.date, "today");
}

#[test]
fn fetch_headers_fall_back_to_labels_without_literal() {
    let r = "* 3 FETCH (UID 7 Subject: Hi there\r\nFrom: x@y\r\n";
    let h = parse_imap_fetch_headers(r);
    assert_eq!(h.subject, "Hi there");
    assert_eq!(h.from, "x@y");
    assert_eq!(h.date, "");
}

#[test]
fn quoted_printable_decodes_bytes_and_soft_breaks() {
    assert_eq!(decode_quoted_printable_to_bytes("caf=C3=A9"), vec![b'c', b'a', b'f', 0xc3, 0xa9]);
    assert_eq!(decode_quoted_printable_to_bytes("ab=\r\ncd"), b"abcd".to_vec());
    assert_eq!(decode_quoted_printable_to_bytes("a=\nb"), b"ab".to_vec());
    assert_eq!(decode_quoted_printable_to_bytes("x=ZZy"), b"x=ZZy".to_vec());
    assert_eq!(decode_quoted_printable_to_bytes("end="), b"end=".to_vec());
    assert_eq!(decode_quoted_printable("caf=E9"), "caf\u{e9}");
    assert_eq!(decode_quoted_printable("=3D=41"), "=A");
}

#[test]
fn base64_decodes_ignoring_white_space_and_falls_back_to_the_input() {
    assert_eq!(decode_base64_to_bytes("aGVs\r\nbG8="), b"hello".to_vec());
    assert_eq!(decode_base64_to_bytes("not base64!"), b"not base64!".to_vec());
    assert_eq!(decode_base64("SGk="), "Hi");
    assert_eq!(decode_base64("/w=="), "\u{fffd}");
}

#[test]
fn charsets_map_bytes_to_characters() {
    assert_eq!(charset_decode(&[0x63, 0xe9], "ISO-8859-1"), "c\u{e9}");
    assert_eq!(charset_decode(&[0xa4], "latin9"), "\u{20ac}");
    assert_eq!(charset_decode(&[0x80, 0x93, 0x81], "windows-1252"), "\u{20ac}\u{201c}\u{81}");
    assert_eq!(charset_decode("é".as_bytes(), "UTF8"), "é");
    assert_eq!(charset_decode(&[0xff], "unknown"), "\u{fffd}");
}

#[test]
fn header_parameters_are_read() {
    assert_eq!(
        extract_boundary("Content-Type: multipart/alternative; BOUNDARY=\"AbC123\"\r\n"),
        Some("AbC123".to_string())
    );
    assert_eq!(extract_boundary("Content-Type: text/plain\r\n"), None);
    assert_eq!(extract_boundary("boundary=\"\""), None);
    assert_eq!(extract_charset("Content-Type: text/html; Charset='ISO-8859-1'\r\n"), "ISO-8859-1");
    assert_eq!(extract_charset("Content-Type: text/html\r\n"), "utf-8");
}

#[test]
fn content_type_is_detected_from_headers() {
    assert_eq!(detect_content_type_from_headers("Content-Type: TEXT/HTML; charset=x"), "text/html");
    assert_eq!(detect_content_type_from_headers("Content-Type: multipart/mixed"), "text/html");
    assert_eq!(detect_content_type_from_headers("X: <!DOCTYPE html>"), "text/html");
    assert_eq!(detect_content_type_from_headers("Content-Type: text/plain"), "text/plain");
}

const MULTIPART: &str = "preamble\r\n--B\r\nContent-Type: text/plain\r\n\r\nplain text\r\n--B\r\nContent-Type: text/html; charset=iso-8859-1\r\nContent-Transfer-Encoding: quoted-printable\r\n\r\n<p>caf=E9</p>\r\n--B--\r\n";

#[test]
fn multipart_prefers_html_and_decodes_it() {
    assert_eq!(extract_multipart_body(MULTIPART, "B"), "<p>caf\u{e9}</p>");
    let plain_only = "--B\r\nContent-Type: text/plain\r\n\r\nonly plain\r\n--B--";
    assert_eq!(extract_multipart_body(plain_only, "B"), "only plain");
    assert_eq!(extract_multipart_body("--B\r\nX: y\r\n\r\nz\r\n--B--", "B"), "");
}

#[test]
fn single_part_bodies_are_decoded_by_transfer_encoding() {
    assert_eq!(maybe_extract_multipart("aGk=", "Content-Transfer-Encoding: base64\r\n"), "hi");
    assert_eq!(
        maybe_extract_multipart("a=3Db", "content-transfer-encoding: quoted-printable\r\n"),
        "a=b"
    );
    assert_eq!(maybe_extract_multipart("as is", "Content-Type: text/plain\r\n"), "as is");
    assert_eq!(
        maybe_extract_multipart(MULTIPART, "Content-Type: multipart/alternative; boundary=B\r\n"),
        "<p>caf\u{e9}</p>"
    );
}

#[test]
fn raw_messages_split_headers_from_body() {
    let p = parse_email_body("Subject: x\r\nContent-Type: text/html\r\n\r\n<p>hi</p>");
    assert_eq!(p.content_type, "text/html");
    assert_eq!(p.body, "<p>hi</p>");
    let p = parse_email_body("Subject: x\n\nplain");
    assert_eq!(p.content_type, "text/plain");
    assert_eq!(p.body, "plain");
}

#[test]
fn imap_header_only_responses_have_no_body() {
    let p = parse_email_body("* 1 FETCH (UID 5 RFC822.HEADER {30}\r\nContent-Type: text/html\r\n\r\n)\r\n");
    assert_eq!(p.body, "");
    assert_eq!(p.content_type, "text/html");
}

#[test]
fn imap_full_responses_are_parsed_from_the_literal() {
    let msg = "Content-Type: text/plain\r\n\r\nbody here";
    let raw = format!("* 1 FETCH (UID 5 RFC822 {{{}}}\r\n{})\r\n", msg.len(), msg);
    let p = try_parse_email_body(&raw).unwrap();
    assert_eq!(p.body, "body here");
    assert_eq!(p.content_type, "text/plain");
    let p = parse_email_body("* 1 FETCH (UID 5 RFC822 no literal");
    assert_eq!(p.body, "");
    assert_eq!(p.content_type, "text/plain");
}

#[test]
fn try_readers_agree_with_the_plain_ones() {
    assert_eq!(try_extract_boundary("Content-Type: multipart/mixed; boundary=XY\r\n"), Some(Some("XY".to_string())));
    assert_eq!(try_extract_boundary("Content-Type: text/plain"), Some(None));
    assert_eq!(try_extract_charset("charset=\"koi8-r\""), Some("koi8-r".to_string()));
    assert_eq!(try_extract_multipart_body(MULTIPART, "B"), Some("<p>caf\u{e9}</p>".to_string()));
    assert_eq!(try_maybe_extract_multipart("aGk=", "Content-Transfer-Encoding: base64\r\n"), Some("hi".to_string()));
}

#[test]
fn every_charset_reads_ascii_alike() {
    let bytes = b"Plain ASCII, 100% <ok>\r\n";
    let expected = String::from_utf8(bytes.to_vec()).unwrap();
    for label in ["utf-8", "UTF8", "iso-8859-1", "latin1", "iso8859-1", "iso-8859-15", "latin9",
                  "windows-1252", "cp1252", "windows1252", "koi8-r", ""] {
        assert_eq!(charset_decode(bytes, label), expected);
    }
}

#[test]
fn quoted_printable_decodes_every_encoded_byte() {
    let bytes: Vec<u8> = (0u8..=255).collect();
    let s: String = bytes.iter().map(|b| format!("={:02X}", b)).collect();
    assert_eq!(decode_quoted_printable_to_bytes(&s), bytes);
}

#[test]
fn fetch_wrapped_message_reads_as_the_bare_one() {
    for m in ["Subject: x\r\nContent-Type: text/html\r\n\r\n<p>hi</p>", "Subject: y\n\nplain", "no headers"] {
        let w = format!("* 1 FETCH (RFC822 {{{}}}\r\n{})\r\n", m.len(), m);
        let a = parse_email_body(&w);
        let b = parse_email_body(m);
        assert_eq!(a.body, b.body);
        assert_eq!(a.content_type, b.content_type);
    }
}
