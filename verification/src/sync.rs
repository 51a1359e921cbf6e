//! The decisions of an incremental mail sync: which UIDs to ask the server for, which
//! messages to store, and what is stored for each.
use vstd::prelude::*;
use crate::account::{is_uuid_v4_text, new_uuid_string, AttachmentMetadata, EmailMetadata};
use crate::imap_conn::{calculate_thread_id, concat_str, thread_id_of, AttachmentPart, ParsedStructure};
use crate::mime::ParsedHeaders;
use crate::text::{
    append_all, chars_of, decimal, decimal_exec, law_decimal_reads_back, parse_digits, string_of,
};

verus! {

/// Sync status of one account.
#[derive(Debug, Clone)]
pub enum SyncStatus {
    Idle,
    Syncing { account: String, folder: String },
    Synced { account: String },
    Offline,
    Error { account: String, message: String },
}

/// What the sync reads from a message's IMAP envelope: its UID, the raw subject, the raw
/// mailbox of its first sender, the raw date, and whether it carries the `\Seen` flag.
pub struct Envelope {
    pub uid: u32,
    pub subject: Option<Vec<u8>>,
    pub from_mailbox: Option<Vec<u8>>,
    pub date: Option<Vec<u8>>,
    pub seen: bool,
}

/// Calls `std::str::from_utf8` and copies the result. The standard library documents that it
/// succeeds exactly on valid UTF-8, giving the characters encoded.
#[verifier::external_body]
fn utf8_text(b: &[u8]) -> (r: Option<String>)
    ensures
        r is Some <==> vstd::utf8::valid_utf8(b@),
        r matches Some(s) ==> s@ == vstd::utf8::decode_utf8(b@),
{
    std::str::from_utf8(b).ok().map(|s| s.to_string())
}

/// An envelope field as text: its bytes if present and valid UTF-8, else `default`.
pub open spec fn field_text(raw: Option<Vec<u8>>, default: Seq<char>) -> Seq<char> {
    match raw {
        Some(b) => if vstd::utf8::valid_utf8(b@) {
            vstd::utf8::decode_utf8(b@)
        } else {
            default
        },
        None => default,
    }
}

/// An envelope field as text, `default` when it is missing or not UTF-8.
pub fn envelope_text(raw: &Option<Vec<u8>>, default: &str) -> (r: String)
    ensures
        r@ == field_text(*raw, default@),
{
    match raw {
        Some(b) => match utf8_text(b.as_slice()) {
            Some(s) => s,
            None => default.to_owned(),
        },
        None => default.to_owned(),
    }
}

/// The metadata listed for a message from its envelope, before the sync gives it an id and a
/// body: none for UID 0; the subject defaults to `(no subject)`, the sender to `(unknown)`, the
/// date to nothing; the content type, threading fields and body path are left empty.
pub fn listed_email(account_id: &str, folder: &str, env: &Envelope) -> (r: Option<EmailMetadata>)
    ensures
        env.uid == 0 <==> r is None,
        r matches Some(e) ==> {
            &&& e.id@ == Seq::<char>::empty()
            &&& e.account_id@ == account_id@
            &&& e.folder@ == folder@
            &&& e.uid == env.uid
            &&& e.subject@ == field_text(env.subject, "(no subject)"@)
            &&& e.from_addr@ == field_text(env.from_mailbox, "(unknown)"@)
            &&& e.date@ == field_text(env.date, ""@)
            &&& e.read == env.seen
            &&& e.body_path@ == Seq::<char>::empty()
            &&& e.content_type@ == Seq::<char>::empty()
            &&& e.in_reply_to@ == Seq::<char>::empty()
            &&& e.thread_id@ == Seq::<char>::empty()
            &&& !e.has_attachments
        },
{
    if env.uid == 0 {
        return None;
    }
    Some(
        EmailMetadata {
            id: String::new(),
            account_id: account_id.to_owned(),
            folder: folder.to_owned(),
            uid: env.uid,
            subject: envelope_text(&env.subject, "(no subject)"),
            from_addr: envelope_text(&env.from_mailbox, "(unknown)"),
            date: envelope_text(&env.date, ""),
            read: env.seen,
            body_path: String::new(),
            content_type: String::new(),
            in_reply_to: String::new(),
            thread_id: String::new(),
            has_attachments: false,
        },
    )
}

/// The UID range a folder sync asks for: everything after the highest stored UID, or
/// everything on a first sync.
pub open spec fn uid_range(max_uid: Option<u32>) -> Seq<char> {
    match max_uid {
        Some(u) => decimal((u + 1) as nat) + ":*"@,
        None => "1:*"@,
    }
}

/// The IMAP UID range to fetch: `N:*` with `N` one past the highest stored UID, or `1:*`.
pub fn incremental_uid_range(max_uid: Option<u32>) -> (r: String)
    requires
        max_uid matches Some(u) ==> u < u32::MAX,
    ensures
        r@ == uid_range(max_uid),
{
    match max_uid {
        Some(u) => {
            let mut d = decimal_exec((u + 1) as u64);
            let tail = chars_of(":*");
            append_all(&mut d, tail.as_slice());
            string_of(d.as_slice())
        },
        None => "1:*".to_owned(),
    }
}

/// The range a sync asks for starts just past the highest stored UID (at 1 on a first sync):
/// reading back the number before `:*` gives that UID.
pub proof fn law_uid_range_starts_after_max(max_uid: Option<u32>)
    requires
        max_uid matches Some(u) ==> u < u32::MAX,
    ensures
        ({
            let r = uid_range(max_uid);
            &&& r.len() >= 3
            &&& r.subrange(r.len() - 2, r.len() as int) == ":*"@
            &&& parse_digits(r.subrange(0, r.len() - 2), u32::MAX as nat) == Some(
                match max_uid {
                    Some(u) => (u + 1) as nat,
                    None => 1nat,
                },
            )
        }),
{
    reveal_strlit(":*");
    reveal_strlit("1:*");
    match max_uid {
        Some(u) => {
            law_decimal_reads_back((u + 1) as nat, u32::MAX as nat);
            let d = decimal((u + 1) as nat);
            let r = d + ":*"@;
            assert(r.subrange(0, r.len() - 2) == d);
            assert(r.subrange(r.len() - 2, r.len() as int) == ":*"@);
        },
        None => {
            law_decimal_reads_back(1, u32::MAX as nat);
            reveal_with_fuel(decimal, 2);
            let r = "1:*"@;
            assert(r.subrange(0, 1) == decimal(1));
            assert(r.subrange(1, 3) == ":*"@);
        },
    }
}

/// Whether a fetched message is new: it has a UID and that UID is above the highest stored
/// one.
pub open spec fn is_new_uid(uid: u32, max_uid: Option<u32>) -> bool {
    uid != 0 && match max_uid {
        Some(m) => uid > m,
        None => true,
    }
}

/// Whether a fetched message should be stored.
pub fn should_store_uid(uid: u32, max_uid: Option<u32>) -> (r: bool)
    ensures
        r == is_new_uid(uid, max_uid),
        r ==> uid != 0,
        r && max_uid is Some ==> uid > max_uid.unwrap(),
{
    if uid == 0 {
        return false;
    }
    match max_uid {
        Some(m) => uid > m,
        None => true,
    }
}

/// The sequence numbers a header sync fetches from a folder of `exists` messages: the last
/// fifty (or all, if fewer), as `start..=exists`.
pub fn fetch_window(exists: u32) -> (r: (u32, u32))
    ensures
        r.1 == exists,
        exists > 0 ==> 1 <= r.0 <= exists,
        exists > 0 ==> exists - r.0 + 1 == if exists < 50 { exists } else { 50 },
        exists == 0 ==> r.0 == 1,
{
    let count = if exists < 50 {
        exists
    } else {
        50
    };
    (exists - count + 1, exists)
}

/// Where the sync stores a message body, relative to the data directory.
pub open spec fn body_file_path(account_id: Seq<char>, email_id: Seq<char>) -> Seq<char> {
    "remailable/bodies/"@ + account_id + "/"@ + email_id + ".txt"@
}

/// The path, relative to the data directory, where a message body is stored.
pub fn body_path_for(account_id: &str, email_id: &str) -> (r: String)
    ensures
        r@ == body_file_path(account_id@, email_id@),
{
    let mut p = chars_of("remailable/bodies/");
    let a = chars_of(account_id);
    append_all(&mut p, a.as_slice());
    let slash = chars_of("/");
    append_all(&mut p, slash.as_slice());
    let e = chars_of(email_id);
    append_all(&mut p, e.as_slice());
    let ext = chars_of(".txt");
    append_all(&mut p, ext.as_slice());
    string_of(p.as_slice())
}

/// `r` is the metadata a folder sync stores, under the id `email_id`, for a new message: its
/// envelope fields as `listed_email` reads them, the body path under the account, the content
/// type and attachment marker from the BODYSTRUCTURE when it could be read (else `text/plain`
/// and none), and the thread it joins through its In-Reply-To header.
pub open spec fn is_synced_email(
    r: EmailMetadata,
    email_id: Seq<char>,
    account_id: Seq<char>,
    folder: Seq<char>,
    env: Envelope,
    structure: Option<ParsedStructure>,
    in_reply_to: Seq<char>,
) -> bool {
    &&& r.id@ == email_id
    &&& r.account_id@ == account_id
    &&& r.folder@ == folder
    &&& r.uid == env.uid
    &&& r.subject@ == field_text(env.subject, "(no subject)"@)
    &&& r.from_addr@ == field_text(env.from_mailbox, "(unknown)"@)
    &&& r.date@ == field_text(env.date, ""@)
    &&& r.read == env.seen
    &&& r.body_path@ == body_file_path(account_id, email_id)
    &&& r.content_type@ == match structure {
        Some(s) => s.body_content_type@,
        None => "text/plain"@,
    }
    &&& r.has_attachments == match structure {
        Some(s) => s.parts@.len() > 0,
        None => false,
    }
    &&& r.in_reply_to@ == in_reply_to
    &&& r.thread_id@ == thread_id_of(email_id, in_reply_to)
}

/// The metadata a folder sync stores for a new message, under the id `email_id`.
pub fn synced_email_with_id(
    email_id: &str,
    account_id: &str,
    folder: &str,
    env: &Envelope,
    structure: Option<&ParsedStructure>,
    in_reply_to: &str,
) -> (r: EmailMetadata)
    ensures
        is_synced_email(
            r,
            email_id@,
            account_id@,
            folder@,
            *env,
            match structure {
                Some(s) => Some(*s),
                None => None,
            },
            in_reply_to@,
        ),
{
    let (content_type, has_attachments) = match structure {
        Some(s) => (string_of(chars_of(s.body_content_type.as_str()).as_slice()), s.parts.len()
            > 0),
        None => ("text/plain".to_owned(), false),
    };
    EmailMetadata {
        id: email_id.to_owned(),
        account_id: account_id.to_owned(),
        folder: folder.to_owned(),
        uid: env.uid,
        subject: envelope_text(&env.subject, "(no subject)"),
        from_addr: envelope_text(&env.from_mailbox, "(unknown)"),
        date: envelope_text(&env.date, ""),
        read: env.seen,
        body_path: body_path_for(account_id, email_id),
        content_type,
        in_reply_to: in_reply_to.to_owned(),
        thread_id: calculate_thread_id(email_id, in_reply_to),
        has_attachments,
    }
}

/// The metadata a folder sync stores for a new message, under a fresh random id.
pub fn synced_email(
    account_id: &str,
    folder: &str,
    env: &Envelope,
    structure: Option<&ParsedStructure>,
    in_reply_to: &str,
) -> (r: EmailMetadata)
    ensures
        is_uuid_v4_text(r.id@),
        is_synced_email(
            r,
            r.id@,
            account_id@,
            folder@,
            *env,
            match structure {
                Some(s) => Some(*s),
                None => None,
            },
            in_reply_to@,
        ),
{
    let email_id = new_uuid_string();
    synced_email_with_id(email_id.as_str(), account_id, folder, env, structure, in_reply_to)
}

/// The attachment record stored for one part of a synced message, under a fresh random id:
/// not yet downloaded.
pub fn attachment_record(email_id: &str, account_id: &str, part: &AttachmentPart) -> (r:
    AttachmentMetadata)
    ensures
        is_uuid_v4_text(r.id@),
        r.email_id@ == email_id@,
        r.account_id@ == account_id@,
        r.filename@ == part.filename@,
        r.content_type@ == part.content_type@,
        r.size == part.size,
        r.part_number@ == part.part_number@,
        !r.downloaded,
        r.local_path@ == Seq::<char>::empty(),
{
    AttachmentMetadata {
        id: new_uuid_string(),
        email_id: email_id.to_owned(),
        account_id: account_id.to_owned(),
        filename: string_of(chars_of(part.filename.as_str()).as_slice()),
        content_type: string_of(chars_of(part.content_type.as_str()).as_slice()),
        size: part.size,
        part_number: string_of(chars_of(part.part_number.as_str()).as_slice()),
        downloaded: false,
        local_path: String::new(),
    }
}

/// The metadata a header sync stores for a new message, under a fresh random id: its parsed
/// header fields, unread, a plain-text body in `{body_dir}/{id}.txt`, a new thread of a
/// further fresh id, no attachments.
pub fn header_synced_email(
    account_id: &str,
    folder: &str,
    uid: u32,
    headers: &ParsedHeaders,
    body_dir: &str,
) -> (r: EmailMetadata)
    ensures
        is_uuid_v4_text(r.id@),
        r.account_id@ == account_id@,
        r.folder@ == folder@,
        r.uid == uid,
        r.subject@ == headers.subject@,
        r.from_addr@ == headers.from@,
        r.date@ == headers.date@,
        !r.read,
        r.body_path@ == body_dir@ + "/"@ + r.id@ + ".txt"@,
        r.content_type@ == "text/plain"@,
        r.in_reply_to@ == headers.in_reply_to@,
        is_uuid_v4_text(r.thread_id@),
        !r.has_attachments,
{
    let email_id = new_uuid_string();
    let d1 = concat_str(body_dir, "/");
    let d2 = concat_str(d1.as_str(), email_id.as_str());
    let body_path = concat_str(d2.as_str(), ".txt");
    EmailMetadata {
        id: email_id,
        account_id: account_id.to_owned(),
        folder: folder.to_owned(),
        uid,
        subject: string_of(chars_of(headers.subject.as_str()).as_slice()),
        from_addr: string_of(chars_of(headers.from.as_str()).as_slice()),
        date: string_of(chars_of(headers.date.as_str()).as_slice()),
        read: false,
        body_path,
        content_type: "text/plain".to_owned(),
        in_reply_to: string_of(chars_of(headers.in_reply_to.as_str()).as_slice()),
        thread_id: new_uuid_string(),
        has_attachments: false,
    }
}

/// The first UID of the range a sync asks for.
pub open spec fn range_start(max_uid: Option<u32>) -> int {
    match max_uid {
        Some(u) => u + 1,
        None => 1,
    }
}

/// A fetched message is stored exactly when its UID lies in the range the sync asked for
/// (from one past the highest stored UID, or from 1).
pub proof fn law_new_uids_are_those_in_range(uid: u32, max_uid: Option<u32>)
    ensures
        is_new_uid(uid, max_uid) <==> uid >= range_start(max_uid),
{
}

} // verus!
