use remailable::account::{AccountConfig, AttachmentMetadata, EmailMetadata};
use remailable::models::{
    AccountListModel, AppModelRust, AttachmentListModel, EmailListModel, EmailReaderModel,
    FolderListModel,
};

fn email(id: &str, read: bool) -> EmailMetadata {
    EmailMetadata {
        id: id.into(),
        account_id: "acct".into(),
        folder: "INBOX".into(),
        uid: 1,
        subject: format!("subject {}", id),
        from_addr: "a@b.com".into(),
        date: "2026-01-01".into(),
        read,
        body_path: String::new(),
        content_type: "text/html".into(),
        in_reply_to: String::new(),
        thread_id: format!("thread {}", id),
        has_attachments: id == "e2",
    }
}

fn attachment(id: &str, size: i64) -> AttachmentMetadata {
    AttachmentMetadata {
        id: id.into(),
        email_id: "e1".into(),
        account_id: "acct".into(),
        filename: "report.pdf".into(),
        content_type: "application/pdf".into(),
        size,
        part_number: "2".into(),
        downloaded: false,
        local_path: String::new(),
    }
}

#[test]
fn account_list_caches_what_storage_listed() {
    let mut m = AccountListModel::new();
    assert_eq!(m.account_count(), 0);
    let a = AccountConfig::new(
        "Work".into(),
        "imap.example.com".into(),
        993,
        "u".into(),
        "p".into(),
        "smtp.example.com".into(),
        587,
    );
    let id = a.id.clone();
    m.refresh_accounts(Ok(vec![a]));
    assert_eq!(m.account_count(), 1);
    assert_eq!(m.get_account_id(0), id);
    assert_eq!(m.get_account_display_name(0), "Work");
    assert_eq!(m.get_account_imap_host(0), "imap.example.com");
    assert_eq!(m.get_account_id(1), "");
    assert_eq!(m.get_account_display_name(-1), "");
    assert_eq!(m.sync_all(Err("db locked".into())).len(), 0);
    m.refresh_accounts(Err("db locked".into()));
    assert_eq!(m.account_count(), 0);
}

#[test]
fn folder_list_and_selection() {
    let mut m = FolderListModel::new();
    m.refresh_folders(Ok(vec!["INBOX".into(), "Sent".into()]));
    assert_eq!(m.folder_count(), 2);
    assert_eq!(m.get_folder_name(1), "Sent");
    assert_eq!(m.get_folder_name(2), "");
    m.select_folder(5);
    m.select_folder(0);
    assert_eq!(m.folder_count(), 2);
    assert_eq!(m.get_folder_name(0), "INBOX");
}

#[test]
fn email_list_getters_and_out_of_range_defaults() {
    let mut m = EmailListModel::new();
    m.refresh_emails("acct".into(), "INBOX".into(), Ok(vec![email("e1", false), email("e2", true)]));
    assert_eq!(m.email_count(), 2);
    assert_eq!(m.current_folder(), "INBOX");
    assert_eq!(m.account_id(), "acct");
    assert_eq!(m.get_email_id(0), "e1");
    assert_eq!(m.get_email_subject(1), "subject e2");
    assert_eq!(m.get_email_from(0), "a@b.com");
    assert_eq!(m.get_email_date(0), "2026-01-01");
    assert_eq!(m.get_email_thread_id(1), "thread e2");
    assert!(!m.get_email_read(0));
    assert!(m.get_email_read(7));
    assert!(m.get_email_read(-1));
    assert!(m.get_email_has_attachments(1));
    assert!(!m.get_email_has_attachments(0));
    assert!(!m.get_email_has_attachments(9));
    assert_eq!(m.get_email_id(2), "");
}

#[test]
fn toggling_twice_restores_the_read_flag() {
    let mut m = EmailListModel::new();
    m.refresh_emails("acct".into(), "INBOX".into(), Ok(vec![email("e1", false), email("e2", true)]));
    assert_eq!(m.read_toggle_target(0), Some(("e1".to_string(), true)));
    assert_eq!(m.read_toggle_target(2), None);
    m.toggle_email_read(0, true);
    assert!(m.get_email_read(0));
    assert!(m.get_email_read(1));
    m.toggle_email_read(0, true);
    assert!(!m.get_email_read(0));
    m.toggle_email_read(1, false);
    assert!(m.get_email_read(1));
    m.toggle_email_read(5, true);
    assert_eq!(m.email_count(), 2);
}

#[test]
fn search_and_clear_search_switch_modes() {
    let mut m = EmailListModel::new();
    m.refresh_emails("acct".into(), "INBOX".into(), Ok(vec![email("e1", false)]));
    m.search_emails(Ok(vec![email("e2", false), email("e3", false)]));
    assert!(m.is_searching());
    assert_eq!(m.email_count(), 2);
    assert_eq!(m.current_folder(), "INBOX");
    m.clear_search(Ok(vec![email("e1", false)]));
    assert!(!m.is_searching());
    assert_eq!(m.email_count(), 1);
    m.refresh_threaded("acct".into(), "Sent".into(), Err("gone".into()));
    assert!(m.thread_mode());
    assert_eq!(m.email_count(), 0);
    assert_eq!(m.current_folder(), "Sent");
    m.refresh_emails("acct".into(), "INBOX".into(), Ok(vec![]));
    assert!(!m.thread_mode());
}

#[test]
fn reader_loads_an_email_and_switches_rendering() {
    let mut r = EmailReaderModel::new();
    r.load_email("missing".into(), None, "ignored".into());
    assert_eq!(r.rust.email_subject, "");
    r.load_email("e1".into(), Some(email("e1", false)), "<p>body</p>".into());
    assert_eq!(r.rust.email_subject, "subject e1");
    assert_eq!(r.rust.email_body, "<p>body</p>");
    assert_eq!(r.rust.email_content_type, "text/html");
    assert!(r.rust.email_is_read);
    assert_eq!(r.rust.attachment_email_id, "e1");
    r.show_plain_text();
    assert_eq!(r.rust.email_content_type, "text/plain");
    r.show_html();
    assert_eq!(r.rust.email_content_type, "text/html");
    assert_eq!(r.rust.email_subject, "subject e1");
    r.load_thread(Ok(vec![email("e1", true), email("e2", false)]));
    assert_eq!(r.get_thread_count(), 2);
    assert_eq!(r.get_thread_email_id(1), "e2");
    assert_eq!(r.get_thread_email_subject(0), "subject e1");
    assert_eq!(r.get_thread_email_date(0), "2026-01-01");
    assert_eq!(r.get_thread_email_id(2), "");
}

#[test]
fn attachment_list_download_paths_and_marking() {
    let mut m = AttachmentListModel::new();
    m.load_attachments(Ok(vec![attachment("att-1", 2048), attachment("att-2", 5_000_000_000)]));
    assert_eq!(m.attachment_count(), 2);
    assert_eq!(m.get_attachment_filename(0), "report.pdf");
    assert_eq!(m.get_attachment_content_type(0), "application/pdf");
    assert_eq!(m.get_attachment_size(0), 2048);
    assert_eq!(m.get_attachment_size(1), 5_000_000_000i64 as i32);
    assert_eq!(m.get_attachment_size(3), 0);
    let t = m.download_target(0).unwrap();
    assert_eq!(t.attachment_id, "att-1");
    assert_eq!(t.source, "remailable/attachments/acct/e1/report.pdf");
    assert_eq!(t.dest_dir, "remailable/downloads/e1");
    assert_eq!(t.local_path, "remailable/downloads/e1/report.pdf");
    assert!(m.download_target(2).is_none());
    assert!(!m.is_attachment_downloaded(0));
    assert_eq!(m.download_attachment(0, false), "");
    assert!(!m.is_attachment_downloaded(0));
    assert_eq!(m.download_attachment(0, true), "remailable/downloads/e1/report.pdf");
    assert!(m.is_attachment_downloaded(0));
    assert!(!m.is_attachment_downloaded(1));
    assert!(!m.is_attachment_downloaded(-1));
    assert_eq!(m.download_attachment(4, true), "");
}

#[test]
fn app_model_starts_empty() {
    let a = AppModelRust::new();
    assert!(a.current_view.is_empty());
    assert!(a.selected_email_id.is_empty());
}
