use remailable::backend::{
    account_from_request, action_of, display_content_type, folders_or_inbox, needs_remote_body,
    present_email_body, requested_folder, summarize_sync, try_present_email_body,
    unknown_action_error, AccountRequest, Action,
};
use remailable::smtp_conn::{
    build_failure_outcome, connection_test_outcome, smtp_security, transport_build_error,
    SmtpSecurity,
};
use remailable::imap_conn::ConnectionResult;

#[test]
fn actions_are_named() {
    assert_eq!(action_of(Some("get_accounts")), Action::GetAccounts);
    assert_eq!(action_of(Some("get_email_body")), Action::GetEmailBody);
    assert_eq!(action_of(Some("ping")), Action::Ping);
    assert_eq!(action_of(Some("Ping")), Action::Unknown);
    assert_eq!(action_of(None), Action::Unknown);
    assert_eq!(unknown_action_error("fly"), "Unknown action: fly");
}

#[test]
fn account_requests_default_missing_fields() {
    let req = AccountRequest {
        display_name: Some("Home".into()),
        email: None,
        imap_host: Some("imap.x".into()),
        imap_port: None,
        smtp_host: None,
        smtp_port: Some(70000),
        username: Some("u".into()),
        password: None,
    };
    let a = account_from_request(req);
    assert_eq!(a.id.len(), 36);
    assert_eq!(a.display_name, "Home");
    assert_eq!(a.email, "");
    assert_eq!(a.imap_port, 993);
    assert_eq!(a.smtp_port, 70000u64 as u16);
    assert_eq!(a.smtp_host, "");
    assert_eq!(a.username, "u");
}

#[test]
fn folders_default_to_inbox() {
    assert_eq!(folders_or_inbox(vec![]), vec!["INBOX".to_string()]);
    assert_eq!(folders_or_inbox(vec!["Sent".into()]), vec!["Sent".to_string()]);
    assert_eq!(requested_folder(None), "INBOX");
    assert_eq!(requested_folder(Some("Sent".into())), "Sent");
}

#[test]
fn sync_summary_adds_counts_and_lists_failures() {
    let outcomes = vec![
        ("Work".to_string(), Ok(3u32)),
        ("Home".to_string(), Err("IMAP login failed: no".to_string())),
        ("Old".to_string(), Ok(4u32)),
    ];
    let r = summarize_sync(&outcomes);
    assert_eq!(r.new_emails, 7);
    assert_eq!(r.errors, vec!["Home: IMAP login failed: no".to_string()]);
    assert!(!r.success());
    let r = summarize_sync(&vec![]);
    assert_eq!(r.new_emails, 0);
    assert!(r.success());
}

#[test]
fn stored_bodies_that_are_only_headers_need_a_fetch() {
    assert!(needs_remote_body(""));
    assert!(needs_remote_body(" \r\n\t"));
    assert!(needs_remote_body("* 1 FETCH (UID 2)"));
    assert!(!needs_remote_body("Hello"));
    assert!(!needs_remote_body(" * x"));
}

#[test]
fn content_types_lose_parameters_and_multipart_html_is_html() {
    assert_eq!(display_content_type("text/plain; charset=utf-8", "x"), "text/plain");
    assert_eq!(display_content_type(" text/html ;x", "x"), "text/html");
    assert_eq!(display_content_type("multipart/alternative; b=1", "<p>hi</p>"), "text/html");
    assert_eq!(display_content_type("multipart/mixed", "plain"), "multipart/mixed");
    assert_eq!(display_content_type("text/plain ", "x"), "text/plain ");
}

#[test]
fn html_bodies_are_cleaned_for_the_reader() {
    let (b, ct) = present_email_body("<p style='color:#fff'>a</p><script>x</script>", "text/html");
    assert_eq!(ct, "text/html");
    assert_eq!(b, "<p style=\"color:#222\">a</p>");
    let (b, ct) = try_present_email_body("<script>x</script>", "text/plain").unwrap();
    assert_eq!(ct, "text/plain");
    assert_eq!(b, "<script>x</script>");
}

#[test]
fn smtp_security_and_outcomes() {
    assert_eq!(smtp_security(465), SmtpSecurity::ImplicitTls);
    assert_eq!(smtp_security(587), SmtpSecurity::StartTls);
    assert_eq!(smtp_security(25), SmtpSecurity::StartTls);
    assert_eq!(transport_build_error(SmtpSecurity::ImplicitTls, "e"), "SMTP relay build failed: e");
    assert_eq!(transport_build_error(SmtpSecurity::StartTls, "e"), "SMTP STARTTLS build failed: e");
    assert!(matches!(build_failure_outcome(SmtpSecurity::StartTls, "dns"),
        ConnectionResult::TlsFailed(m) if m == "SMTP STARTTLS build failed: dns"));
    assert!(matches!(connection_test_outcome(Ok(true)), ConnectionResult::Success));
    assert!(matches!(connection_test_outcome(Ok(false)),
        ConnectionResult::ConnectionFailed(m) if m == "SMTP test_connection returned false"));
    assert!(matches!(connection_test_outcome(Err("refused".into())),
        ConnectionResult::ConnectionFailed(m) if m == "refused"));
}
