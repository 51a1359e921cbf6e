use remailable::imap_conn::{calculate_thread_id, AttachmentPart, ParsedStructure};
use remailable::mime::ParsedHeaders;
use remailable::sync::{
    attachment_record, body_path_for, envelope_text, fetch_window, header_synced_email,
    incremental_uid_range, listed_email, should_store_uid, synced_email, synced_email_with_id,
    Envelope,
};

#[test]
fn test_incremental_uid_range_first_sync() {
    let uid_range = incremental_uid_range(None);
    assert_eq!(uid_range, "1:*");
}

#[test]
fn test_incremental_uid_range_subsequent_sync() {
    let max_uid: Option<u32> = Some(42);
    let uid_range = incremental_uid_range(max_uid);
    assert_eq!(uid_range, "43:*");
}

#[test]
fn test_calculate_thread_id_integration() {
    let thread_id = calculate_thread_id("email-1", "<parent@example.com>");
    assert_eq!(thread_id, "parent@example.com");

    let thread_id = calculate_thread_id("email-2", "");
    assert_eq!(thread_id, "email-2");
}

#[test]
fn uid_range_reads_back_one_past_the_highest_uid() {
    for max in [0u32, 1, 9, 99, 4_000_000_000] {
        let r = incremental_uid_range(Some(max));
        let n: u64 = r.strip_suffix(":*").unwrap().parse().unwrap();
        assert_eq!(n, max as u64 + 1);
    }
}

#[test]
fn only_uids_above_the_stored_maximum_are_new() {
    assert!(!should_store_uid(0, None));
    assert!(should_store_uid(1, None));
    assert!(!should_store_uid(42, Some(42)));
    assert!(should_store_uid(43, Some(42)));
    assert!(!should_store_uid(7, Some(42)));
}

#[test]
fn fetch_window_takes_the_last_fifty() {
    assert_eq!(fetch_window(10), (1, 10));
    assert_eq!(fetch_window(50), (1, 50));
    assert_eq!(fetch_window(51), (2, 51));
    assert_eq!(fetch_window(1000), (951, 1000));
}

fn envelope(uid: u32) -> Envelope {
    Envelope {
        uid,
        subject: Some(b"Hello".to_vec()),
        from_mailbox: Some(vec![0xff, 0xfe]),
        date: None,
        seen: true,
    }
}

#[test]
fn envelope_fields_fall_back_when_missing_or_not_utf8() {
    assert_eq!(envelope_text(&Some(b"abc".to_vec()), "x"), "abc");
    assert_eq!(envelope_text(&Some(vec![0xc3]), "x"), "x");
    assert_eq!(envelope_text(&None, "(no subject)"), "(no subject)");
    assert!(listed_email("a", "INBOX", &envelope(0)).is_none());
    let e = listed_email("a", "INBOX", &envelope(5)).unwrap();
    assert_eq!(e.subject, "Hello");
    assert_eq!(e.from_addr, "(unknown)");
    assert_eq!(e.date, "");
    assert!(e.read);
    assert_eq!(e.uid, 5);
    assert!(e.id.is_empty());
}

#[test]
fn synced_email_takes_structure_and_thread() {
    let s = ParsedStructure {
        body_content_type: "text/html".into(),
        parts: vec![AttachmentPart {
            filename: "a.pdf".into(),
            content_type: "application/pdf".into(),
            size: 10,
            part_number: "2".into(),
        }],
    };
    let e = synced_email_with_id("id-1", "acct", "INBOX", &envelope(9), Some(&s), "<p@x>");
    assert_eq!(e.id, "id-1");
    assert_eq!(e.content_type, "text/html");
    assert!(e.has_attachments);
    assert_eq!(e.thread_id, "p@x");
    assert_eq!(e.body_path, "remailable/bodies/acct/id-1.txt");
    let plain = synced_email_with_id("id-2", "acct", "INBOX", &envelope(9), None, "");
    assert_eq!(plain.content_type, "text/plain");
    assert!(!plain.has_attachments);
    assert_eq!(plain.thread_id, "id-2");
    assert_eq!(body_path_for("a", "b"), "remailable/bodies/a/b.txt");

    let fresh = synced_email("acct", "INBOX", &envelope(9), None, "");
    assert_eq!(fresh.id.len(), 36);
    assert_eq!(fresh.thread_id, fresh.id);
    assert_eq!(fresh.body_path, format!("remailable/bodies/acct/{}.txt", fresh.id));
    let other = synced_email("acct", "INBOX", &envelope(9), None, "");
    assert_ne!(fresh.id, other.id);

    let a = attachment_record("id-1", "acct", &s.parts[0]);
    assert_eq!(a.id.len(), 36);
    assert_eq!(a.email_id, "id-1");
    assert_eq!(a.filename, "a.pdf");
    assert_eq!(a.size, 10);
    assert!(!a.downloaded);
    assert!(a.local_path.is_empty());
}

#[test]
fn header_sync_stores_unread_plain_text() {
    let h = ParsedHeaders {
        subject: "S".into(),
        from: "f@x".into(),
        date: "d".into(),
        in_reply_to: "<r>".into(),
    };
    let e = header_synced_email("acct", "INBOX", 3, &h, "/b");
    assert_eq!(e.subject, "S");
    assert_eq!(e.from_addr, "f@x");
    assert!(!e.read);
    assert_eq!(e.content_type, "text/plain");
    assert_eq!(e.in_reply_to, "<r>");
    assert_eq!(e.thread_id.len(), 36);
    assert_ne!(e.thread_id, e.id);
    assert_eq!(e.body_path, format!("/b/{}.txt", e.id));
}
