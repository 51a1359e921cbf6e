use remailable::account::EmailMetadata;
use remailable::html::{
    fix_inline_style, html_to_eink, sanitize_html, try_fix_inline_style, try_html_to_eink,
    try_sanitize_html,
};
use remailable::imap_conn::{
    calculate_thread_id, imap_check_outcome, parse_bodystructure, parse_thread_headers, try_parse_bodystructure,
    AttachmentPart, ConnectionResult, ParsedStructure,
};

#[test]
fn test_email_metadata_fields() {
    let meta = EmailMetadata {
        id: "test-id".into(),
        account_id: "acct-id".into(),
        folder: "INBOX".into(),
        uid: 42,
        subject: "Test".into(),
        from_addr: "a@b.com".into(),
        date: "2026-01-01".into(),
        read: false,
        body_path: "/tmp/body.txt".into(),
        content_type: "text/plain".into(),
        in_reply_to: String::new(),
        thread_id: "test-id".into(),
        has_attachments: false,
    };
    assert_eq!(meta.uid, 42);
    assert_eq!(meta.folder, "INBOX");
    assert!(!meta.read);
}

#[test]
fn test_parsed_structure() {
    let structure = ParsedStructure {
        body_content_type: "text/html".to_string(),
        parts: vec![AttachmentPart {
            filename: "report.pdf".to_string(),
            content_type: "application/pdf".to_string(),
            size: 2048,
            part_number: "2".to_string(),
        }],
    };
    assert_eq!(structure.body_content_type, "text/html");
    assert_eq!(structure.parts.len(), 1);
    assert_eq!(structure.parts[0].filename, "report.pdf");
    assert_eq!(structure.parts[0].part_number, "2");
}

#[test]
fn test_html_to_eink_simple() {
    let html = r#"<html><body><p style="color:red">Hello</p></body></html>"#;
    let text = html_to_eink(html);
    assert_eq!(text, "Hello");
}

#[test]
fn test_html_to_eink_paragraphs() {
    let html = "<p>First paragraph</p><p>Second paragraph</p>";
    let text = html_to_eink(html);
    assert!(text.contains("First paragraph"));
    assert!(text.contains("Second paragraph"));
    assert!(text.contains("\n"));
}

#[test]
fn test_html_to_eink_entities() {
    let html = "<p>Rock &amp; Roll &lt;3&gt; &quot;quotes&quot;</p>";
    let text = html_to_eink(html);
    assert!(text.contains("Rock & Roll"));
    assert!(text.contains("<3>"));
    assert!(text.contains("\"quotes\""));
}

#[test]
fn test_html_to_eink_br() {
    let html = "Line 1<br>Line 2<br/>Line 3";
    let text = html_to_eink(html);
    assert!(text.contains("Line 1\nLine 2\nLine 3") || text.contains("Line 1") && text.contains("Line 3"));
}

#[test]
fn test_html_to_eink_strips_css() {
    let html = r#"<html><head><style>body { color: red; }</style></head><body><p>Content</p></body></html>"#;
    let text = html_to_eink(html);
    assert!(!text.contains("color:"));
    assert!(!text.contains("red"));
    assert!(text.contains("Content"));
}

#[test]
fn test_html_to_eink_collapse_whitespace() {
    let html = "<p>A</p><p>B</p><p>C</p>";
    let text = html_to_eink(html);
    assert!(!text.contains("\n\n\n"));
}

#[test]
fn test_html_to_eink_nbsp() {
    let html = "<p>Hello&nbsp;World</p>";
    let text = html_to_eink(html);
    assert!(text.contains("Hello World"));
}

#[test]
fn test_calculate_thread_id_with_reply() {
    let email_id = "email-123";
    let in_reply_to = "<parent-msg-456@example.com>";
    let thread_id = calculate_thread_id(email_id, in_reply_to);
    assert_eq!(thread_id, "parent-msg-456@example.com");
}

#[test]
fn test_calculate_thread_id_no_reply() {
    let email_id = "email-123";
    let in_reply_to = "";
    let thread_id = calculate_thread_id(email_id, in_reply_to);
    assert_eq!(thread_id, "email-123");
}

#[test]
fn test_calculate_thread_id_normalize_angle_brackets() {
    let email_id = "email-123";
    let in_reply_to = "<msg-id>";
    let thread_id = calculate_thread_id(email_id, in_reply_to);
    assert_eq!(thread_id, "msg-id");
}

#[test]
fn test_parse_bodystructure_multipart() {
    let structure = r#"("mixed" ("alternative" ("text" "plain" ("charset" "utf-8") NIL NIL "7bit" 123 5 NIL NIL NIL NIL)("text" "html" ("charset" "utf-8") NIL NIL "7bit" 456 10 NIL NIL NIL NIL)("application" "pdf" ("filename" "report.pdf") NIL NIL "base64" 2048 NIL ("attachment" ("filename" "report.pdf")) NIL NIL))"#;
    let parsed = parse_bodystructure(structure).unwrap();
    assert_eq!(parsed.body_content_type, "text/html");
    assert_eq!(parsed.parts.len(), 1);
    assert_eq!(parsed.parts[0].filename, "report.pdf");
    assert_eq!(parsed.parts[0].content_type, "application/pdf");
}

#[test]
fn test_parse_bodystructure_plain_only() {
    let structure = r#"("text" "plain" ("charset" "utf-8") NIL NIL "7bit" 42 1 NIL NIL NIL NIL)"#;
    let parsed = parse_bodystructure(structure).unwrap();
    assert_eq!(parsed.body_content_type, "text/plain");
    assert!(parsed.parts.is_empty());
}

#[test]
fn bodystructure_numbers_parts_from_two_and_names_unnamed_ones() {
    let structure = r#"("mixed" ("text" "plain" NIL) ("image" "png" ("name" "x")) ("application" "zip" ("filename" "a.zip")))"#;
    let parsed = try_parse_bodystructure(structure).unwrap().unwrap();
    assert_eq!(parsed.body_content_type, "text/plain");
    assert_eq!(parsed.parts.len(), 2);
    assert_eq!(parsed.parts[0].content_type, "image/png");
    assert_eq!(parsed.parts[0].part_number, "2");
    assert_eq!(parsed.parts[1].content_type, "application/zip");
    assert_eq!(parsed.parts[1].part_number, "3");
}

#[test]
fn thread_id_trims_repeated_brackets() {
    assert_eq!(calculate_thread_id("e", "<<a@b>>"), "a@b");
    assert_eq!(calculate_thread_id("e", "<>"), "");
}

#[test]
fn connection_result_messages() {
    assert_eq!(ConnectionResult::Success.message(), "Connection successful");
    assert_eq!(ConnectionResult::AuthFailed("bad".into()).message(), "Authentication failed: bad");
    assert_eq!(ConnectionResult::TlsFailed("x".into()).message(), "TLS error: x");
    assert_eq!(ConnectionResult::Timeout("t".into()).message(), "Connection timed out: t");
    assert!(ConnectionResult::Success.is_success());
    assert!(!ConnectionResult::ConnectionFailed("c".into()).is_success());
}

#[test]
fn thread_headers_read_message_id_and_in_reply_to() {
    let (msg_id, in_reply) = parse_thread_headers("Message-ID: <m1@x>\r\nIn-Reply-To: <p1@x>\r\n");
    assert_eq!(msg_id, "<m1@x>");
    assert_eq!(in_reply, "<p1@x>");
    let (msg_id, in_reply) = parse_thread_headers("MESSAGE-ID:<a@b>\nX: y\nmessage-id: <c@d>\n");
    assert_eq!(msg_id, "<c@d>");
    assert_eq!(in_reply, "");
}

#[test]
fn html_to_eink_converts_when_patterns_compile() {
    assert_eq!(try_html_to_eink("<p>x</p>").unwrap(), "x");
}

#[test]
fn sanitize_removes_scripts_and_darkens_white_text() {
    let out = sanitize_html(r#"<p style="color: white">a</p><script>bad()</script>"#);
    assert_eq!(out, r#"<p style="color:#222">a</p>"#);
    assert_eq!(fix_inline_style("color: red; margin: 0"), "color: red; margin: 0");
    assert_eq!(fix_inline_style("color: White; margin: 0"), "color:#222; margin: 0");
}

#[test]
fn eink_text_is_trimmed_and_blank_lines_collapse() {
    assert_eq!(html_to_eink("  <p> x </p>  "), "x");
    assert_eq!(html_to_eink("a<br><br> <br>b"), "a\n\nb");
    assert_eq!(html_to_eink("A\n \n \nB"), "A\n\nB");
    assert_eq!(html_to_eink("<p>A</p><p> </p><p>B</p>"), "A\n\nB");
    assert_eq!(html_to_eink("a<br><br><br><br>b"), "a\n\nb");
}

#[test]
fn cleaning_succeeds_when_its_patterns_compile() {
    assert_eq!(try_sanitize_html("<embed src=x><b>k</b>").unwrap(), "<b>k</b>");
    assert_eq!(try_fix_inline_style("COLOR: #FFF").unwrap(), "color:#222");
}

#[test]
fn imap_check_reports_the_first_failure() {
    assert!(matches!(imap_check_outcome(Err("dns".into()), Err("x".into())),
        ConnectionResult::ConnectionFailed(m) if m == "dns"));
    assert!(matches!(imap_check_outcome(Ok(()), Err("bad password".into())),
        ConnectionResult::AuthFailed(m) if m == "bad password"));
    assert!(matches!(imap_check_outcome(Ok(()), Ok(())), ConnectionResult::Success));
}
