use remailable::account::{AccountConfig, AttachmentMetadata, EmailMetadata};

fn test_account() -> AccountConfig {
    AccountConfig::new(
        "Test Account".into(),
        "imap.example.com".into(),
        993,
        "user@example.com".into(),
        "password123".into(),
        "smtp.example.com".into(),
        587,
    )
}

#[test]
fn test_account_config_new() {
    let config = test_account();
    assert!(!config.id.is_empty(), "ID should be generated");
    assert_eq!(config.imap_host, "imap.example.com");
    assert_eq!(config.imap_port, 993);
    assert_eq!(config.username, "user@example.com");
    assert_eq!(config.password, "password123");
    assert_eq!(config.smtp_host, "smtp.example.com");
    assert_eq!(config.smtp_port, 587);
}

#[test]
fn test_attachment_metadata_fields() {
    let attachment = AttachmentMetadata {
        id: "att-1".into(),
        email_id: "email-1".into(),
        account_id: "acct-1".into(),
        filename: "report.pdf".into(),
        content_type: "application/pdf".into(),
        size: 1024,
        part_number: "2".into(),
        downloaded: false,
        local_path: String::new(),
    };
    assert_eq!(attachment.filename, "report.pdf");
    assert_eq!(attachment.content_type, "application/pdf");
    assert_eq!(attachment.size, 1024);
    assert_eq!(attachment.part_number, "2");
    assert!(!attachment.downloaded);
}

#[test]
fn test_email_metadata_new_fields() {
    let email = EmailMetadata {
        id: "email-1".into(),
        account_id: "acct-1".into(),
        folder: "INBOX".into(),
        uid: 1,
        subject: "Test".into(),
        from_addr: "a@b.com".into(),
        date: "2026-01-01".into(),
        read: false,
        body_path: String::new(),
        content_type: "text/html".into(),
        in_reply_to: "<msg-parent@example.com>".into(),
        thread_id: "thread-123".into(),
        has_attachments: true,
    };
    assert_eq!(email.content_type, "text/html");
    assert_eq!(email.in_reply_to, "<msg-parent@example.com>");
    assert_eq!(email.thread_id, "thread-123");
    assert!(email.has_attachments);
}

#[test]
fn new_accounts_get_distinct_uuid_ids() {
    let a = test_account();
    let b = test_account();
    assert_eq!(a.id.len(), 36);
    for (i, c) in a.id.chars().enumerate() {
        if [8, 13, 18, 23].contains(&i) {
            assert_eq!(c, '-');
        } else {
            assert!(c.is_ascii_hexdigit() && !c.is_ascii_uppercase());
        }
    }
    assert_eq!(a.id.chars().nth(14), Some('4'));
    assert!("89ab".contains(a.id.chars().nth(19).unwrap()));
    assert_ne!(a.id, b.id);
    assert_eq!(a.display_name, "Test Account");
    assert!(a.email.is_empty());
    assert_eq!(a.imap_port, 993);
}
