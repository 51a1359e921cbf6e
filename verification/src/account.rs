//! Accounts, and the metadata kept locally for each email and attachment.
use vstd::prelude::*;

verus! {

/// Email metadata stored locally for offline access; the body itself lives in the file at
/// `body_path`.
#[derive(Debug, Clone)]
pub struct EmailMetadata {
    /// UUID of the stored email.
    pub id: String,
    /// The account it belongs to.
    pub account_id: String,
    /// IMAP folder name (e.g. "INBOX").
    pub folder: String,
    /// IMAP UID, unique within folder and account.
    pub uid: u32,
    pub subject: String,
    pub from_addr: String,
    /// ISO 8601 or IMAP date text.
    pub date: String,
    pub read: bool,
    /// Where the body is stored locally.
    pub body_path: String,
    /// MIME content type ("text/plain", "text/html").
    pub content_type: String,
    /// Message-ID of the parent email, for threading.
    pub in_reply_to: String,
    /// Groups the emails of one conversation.
    pub thread_id: String,
    /// Whether the list shows an attachment marker.
    pub has_attachments: bool,
}

/// Metadata of an email attachment.
#[derive(Debug, Clone)]
pub struct AttachmentMetadata {
    pub id: String,
    /// The email it belongs to.
    pub email_id: String,
    /// The account, for organising the download directory.
    pub account_id: String,
    /// File name from the Content-Disposition.
    pub filename: String,
    /// MIME type (e.g. "application/pdf").
    pub content_type: String,
    /// Size in bytes.
    pub size: i64,
    /// IMAP part number for fetching (e.g. "2", "2.1").
    pub part_number: String,
    /// Whether the file has been saved to disk.
    pub downloaded: bool,
    /// Where the file was saved, empty until then.
    pub local_path: String,
}

/// An account's IMAP and SMTP settings as the user enters them.
#[derive(Debug, Clone)]
pub struct AccountConfig {
    /// UUID v4.
    pub id: String,
    /// The name shown for the account, like "Work".
    pub display_name: String,
    pub email: String,
    pub imap_host: String,
    /// Usually 993 for IMAPS.
    pub imap_port: u16,
    pub username: String,
    pub password: String,
    pub smtp_host: String,
    /// Usually 587 (STARTTLS) or 465 (SMTP over TLS).
    pub smtp_port: u16,
}

/// A lower-case hexadecimal digit.
pub open spec fn is_lower_hex(c: char) -> bool {
    ('0' <= c && c <= '9') || ('a' <= c && c <= 'f')
}

/// The hyphenated text of a random (version 4) UUID: 36 characters, hyphens at 8, 13, 18 and
/// 23, lower-case hex digits elsewhere, the version digit `4` at 14 and one of `8`, `9`, `a`,
/// `b` (the RFC variant) at 19.
pub open spec fn is_uuid_v4_text(s: Seq<char>) -> bool {
    &&& s.len() == 36
    &&& forall|i: int|
        0 <= i < 36 ==> if i == 8 || i == 13 || i == 18 || i == 23 {
            s[i] == '-'
        } else {
            is_lower_hex(#[trigger] s[i])
        }
    &&& s[14] == '4'
    &&& (s[19] == '8' || s[19] == '9' || s[19] == 'a' || s[19] == 'b')
}

/// Calls `uuid::Uuid::new_v4().to_string()`. The result is random; the contract states only
/// what holds of every outcome: the hyphenated lower-case text of a version 4 UUID.
#[verifier::external_body]
pub(crate) fn new_uuid_string() -> (r: String)
    ensures
        is_uuid_v4_text(r@),
{
    uuid::Uuid::new_v4().to_string()
}

impl AccountConfig {
    /// A new account with a fresh random id and the given settings; the email address is
    /// left empty, to be set on its own.
    pub fn new(
        display_name: String,
        imap_host: String,
        imap_port: u16,
        username: String,
        password: String,
        smtp_host: String,
        smtp_port: u16,
    ) -> (r: Self)
        ensures
            is_uuid_v4_text(r.id@),
            r.display_name == display_name,
            r.email@.len() == 0,
            r.imap_host == imap_host,
            r.imap_port == imap_port,
            r.username == username,
            r.password == password,
            r.smtp_host == smtp_host,
            r.smtp_port == smtp_port,
    {
        AccountConfig {
            id: new_uuid_string(),
            display_name,
            email: String::new(),
            imap_host,
            imap_port,
            username,
            password,
            smtp_host,
            smtp_port,
        }
    }
}

} // verus!
