//! The headless backend's request handling, apart from its I/O: which action a request
//! names, how an account is built from request parameters, how a sync is summed up, and how
//! a stored body is prepared for the reader.
use vstd::prelude::*;
use crate::account::{is_uuid_v4_text, new_uuid_string, AccountConfig};
use crate::html::{sanitize_html, sanitize_patterns_compile, sanitize_patterns_ok, sanitized};
use crate::imap_conn::{concat_str, views_of_strings};
use crate::text::{
    chars_of, contains_seq, contains_str, copy_range, find_seq, find_str, lemma_find_from, starts_with_seq,
    starts_with_str, string_of, trim_chars, trim_seq,
};

verus! {

/// The actions a frontend request can name.
#[derive(Debug, Clone, Copy, PartialEq, Eq, Structural)]
pub enum Action {
    GetAccounts,
    AddAccount,
    RemoveAccount,
    Sync,
    GetFolders,
    GetEmails,
    GetEmailBody,
    Ping,
    Unknown,
}

/// The action named by `name`.
pub open spec fn action_named(name: Seq<char>) -> Action {
    if name == "get_accounts"@ {
        Action::GetAccounts
    } else if name == "add_account"@ {
        Action::AddAccount
    } else if name == "remove_account"@ {
        Action::RemoveAccount
    } else if name == "sync"@ {
        Action::Sync
    } else if name == "get_folders"@ {
        Action::GetFolders
    } else if name == "get_emails"@ {
        Action::GetEmails
    } else if name == "get_email_body"@ {
        Action::GetEmailBody
    } else if name == "ping"@ {
        Action::Ping
    } else {
        Action::Unknown
    }
}

fn same_text(a: &str, b: &str) -> (r: bool)
    ensures
        r == (a@ == b@),
{
    let x = chars_of(a);
    let y = chars_of(b);
    if x.len() != y.len() {
        return false;
    }
    let mut i: usize = 0;
    while i < x.len()
        invariant
            x@ == a@,
            y@ == b@,
            x@.len() == y@.len(),
            0 <= i <= x@.len(),
            forall|k: int| 0 <= k < i ==> x@[k] == y@[k],
        decreases x@.len() - i,
    {
        if x[i] != y[i] {
            return false;
        }
        i = i + 1;
    }
    assert(x@ =~= y@);
    true
}

/// The action a request names; a missing action counts as the empty name.
pub fn action_of(name: Option<&str>) -> (r: Action)
    ensures
        r == action_named(
            match name {
                Some(n) => n@,
                None => Seq::<char>::empty(),
            },
        ),
{
    let n = match name {
        Some(n) => n,
        None => "",
    };
    proof {
        reveal_strlit("");
        assert(""@ =~= Seq::<char>::empty());
    }
    if same_text(n, "get_accounts") {
        Action::GetAccounts
    } else if same_text(n, "add_account") {
        Action::AddAccount
    } else if same_text(n, "remove_account") {
        Action::RemoveAccount
    } else if same_text(n, "sync") {
        Action::Sync
    } else if same_text(n, "get_folders") {
        Action::GetFolders
    } else if same_text(n, "get_emails") {
        Action::GetEmails
    } else if same_text(n, "get_email_body") {
        Action::GetEmailBody
    } else if same_text(n, "ping") {
        Action::Ping
    } else {
        Action::Unknown
    }
}

/// The error answered to a request whose action is unknown.
pub fn unknown_action_error(name: &str) -> (r: String)
    ensures
        r@ == "Unknown action: "@ + name@,
{
    concat_str("Unknown action: ", name)
}

/// The parameters of an `add_account` request, each as found in the request (`None` when
/// missing or of the wrong kind).
pub struct AccountRequest {
    pub display_name: Option<String>,
    pub email: Option<String>,
    pub imap_host: Option<String>,
    pub imap_port: Option<u64>,
    pub smtp_host: Option<String>,
    pub smtp_port: Option<u64>,
    pub username: Option<String>,
    pub password: Option<String>,
}

/// A text parameter, empty when missing.
pub open spec fn text_param(p: Option<String>) -> Seq<char> {
    match p {
        Some(s) => s@,
        None => Seq::empty(),
    }
}

/// A port parameter cut to 16 bits, `default` when missing.
pub open spec fn port_param(p: Option<u64>, default: u16) -> u16 {
    match p {
        Some(v) => v as u16,
        None => default,
    }
}

fn text_or_empty(p: Option<String>) -> (r: String)
    ensures
        r@ == text_param(p),
{
    match p {
        Some(s) => s,
        None => String::new(),
    }
}

fn port_or(p: Option<u64>, default: u16) -> (r: u16)
    ensures
        r == port_param(p, default),
{
    match p {
        Some(v) => v as u16,
        None => default,
    }
}

/// The account an `add_account` request describes, under a fresh random id: missing texts
/// are empty, a missing IMAP port is 993 and a missing SMTP port 587.
pub fn account_from_request(req: AccountRequest) -> (r: AccountConfig)
    ensures
        is_uuid_v4_text(r.id@),
        r.display_name@ == text_param(req.display_name),
        r.email@ == text_param(req.email),
        r.imap_host@ == text_param(req.imap_host),
        r.imap_port == port_param(req.imap_port, 993),
        r.smtp_host@ == text_param(req.smtp_host),
        r.smtp_port == port_param(req.smtp_port, 587),
        r.username@ == text_param(req.username),
        r.password@ == text_param(req.password),
{
    AccountConfig {
        id: new_uuid_string(),
        display_name: text_or_empty(req.display_name),
        email: text_or_empty(req.email),
        imap_host: text_or_empty(req.imap_host),
        imap_port: port_or(req.imap_port, 993),
        username: text_or_empty(req.username),
        password: text_or_empty(req.password),
        smtp_host: text_or_empty(req.smtp_host),
        smtp_port: port_or(req.smtp_port, 587),
    }
}

/// The folder a `get_emails` request reads: the one named, else "INBOX".
pub fn requested_folder(folder: Option<String>) -> (r: String)
    ensures
        r@ == match folder {
            Some(f) => f@,
            None => "INBOX"@,
        },
{
    match folder {
        Some(f) => f,
        None => "INBOX".to_owned(),
    }
}

/// The folders listed for an account: those stored by earlier syncs, or only "INBOX"
/// before the first sync stored any.
pub fn folders_or_inbox(stored: Vec<String>) -> (r: Vec<String>)
    ensures
        stored@.len() > 0 ==> r@ == stored@,
        stored@.len() == 0 ==> views_of_strings(r@) == seq!["INBOX"@],
{
    if stored.len() > 0 {
        stored
    } else {
        let mut r: Vec<String> = Vec::new();
        r.push("INBOX".to_owned());
        assert(views_of_strings(r@) =~= seq!["INBOX"@]);
        r
    }
}

/// The number of new emails over the accounts whose sync succeeded.
pub open spec fn new_email_total(outcomes: Seq<(String, Result<u32, String>)>) -> int
    decreases outcomes.len(),
{
    if outcomes.len() == 0 {
        0
    } else {
        new_email_total(outcomes.drop_last()) + match outcomes.last().1 {
            Ok(n) => n as int,
            Err(_) => 0,
        }
    }
}

/// One line per account whose sync failed, in order: `{display name}: {error}`.
pub open spec fn sync_errors(outcomes: Seq<(String, Result<u32, String>)>) -> Seq<Seq<char>>
    decreases outcomes.len(),
{
    if outcomes.len() == 0 {
        Seq::empty()
    } else {
        let rest = sync_errors(outcomes.drop_last());
        match outcomes.last().1 {
            Ok(_) => rest,
            Err(e) => rest.push(outcomes.last().0@ + ": "@ + e@),
        }
    }
}

/// The outcome of a sync over several accounts.
pub struct SyncReport {
    /// New emails stored over all accounts.
    pub new_emails: u32,
    /// One line per failed account.
    pub errors: Vec<String>,
}

impl SyncReport {
    /// Whether every account synced.
    pub fn success(&self) -> (r: bool)
        ensures
            r == (self.errors@.len() == 0),
    {
        self.errors.len() == 0
    }
}

proof fn lemma_total_prefix(outcomes: Seq<(String, Result<u32, String>)>, i: int)
    requires
        0 <= i <= outcomes.len(),
    ensures
        0 <= new_email_total(outcomes.take(i)) <= new_email_total(outcomes),
    decreases outcomes.len(),
{
    if outcomes.len() > 0 {
        if i == outcomes.len() {
            assert(outcomes.take(i) =~= outcomes);
            lemma_total_prefix(outcomes.drop_last(), i - 1);
            assert(outcomes.drop_last().take(i - 1) =~= outcomes.drop_last());
        } else {
            lemma_total_prefix(outcomes.drop_last(), i);
            assert(outcomes.drop_last().take(i) =~= outcomes.take(i));
        }
    }
}

/// Sums up the sync of each account, given as its display name and either the number of
/// new emails or the error. The total must fit in 32 bits, as the sum would otherwise
/// overflow.
pub fn summarize_sync(outcomes: &Vec<(String, Result<u32, String>)>) -> (r: SyncReport)
    requires
        new_email_total(outcomes@) <= u32::MAX,
    ensures
        r.new_emails == new_email_total(outcomes@),
        views_of_strings(r.errors@) == sync_errors(outcomes@),
{
    let mut total: u32 = 0;
    let mut errors: Vec<String> = Vec::new();
    let mut i: usize = 0;
    while i < outcomes.len()
        invariant
            0 <= i <= outcomes@.len(),
            new_email_total(outcomes@) <= u32::MAX,
            total == new_email_total(outcomes@.take(i as int)),
            views_of_strings(errors@) == sync_errors(outcomes@.take(i as int)),
        decreases outcomes@.len() - i,
    {
        let ghost before = outcomes@.take(i as int);
        let ghost after = outcomes@.take(i + 1);
        assert(after.drop_last() =~= before);
        assert(after.last() == outcomes@[i as int]);
        proof {
            lemma_total_prefix(outcomes@, i + 1);
        }
        let (name, outcome) = &outcomes[i];
        match outcome {
            Ok(n) => {
                total = total + *n;
            },
            Err(e) => {
                let ghost earlier = errors@;
                let head = concat_str(name.as_str(), ": ");
                let line = concat_str(head.as_str(), e.as_str());
                let ghost line_text = line@;
                errors.push(line);
                assert(views_of_strings(errors@) =~= views_of_strings(earlier).push(line_text));
            },
        }
        i = i + 1;
    }
    assert(outcomes@.take(outcomes@.len() as int) =~= outcomes@);
    SyncReport { new_emails: total, errors }
}

/// The number of accounts whose sync failed.
pub open spec fn failed_count(outcomes: Seq<(String, Result<u32, String>)>) -> int
    decreases outcomes.len(),
{
    if outcomes.len() == 0 {
        0
    } else {
        failed_count(outcomes.drop_last()) + if outcomes.last().1 is Err {
            1int
        } else {
            0int
        }
    }
}

/// A sync report lists one error line per failed account, so it reports success exactly when
/// no account failed.
pub proof fn law_one_error_per_failed_account(outcomes: Seq<(String, Result<u32, String>)>)
    ensures
        sync_errors(outcomes).len() == failed_count(outcomes),
        sync_errors(outcomes).len() == 0 <==> forall|i: int|
            0 <= i < outcomes.len() ==> (#[trigger] outcomes[i]).1 is Ok,
    decreases outcomes.len(),
{
    if outcomes.len() > 0 {
        let prefix = outcomes.drop_last();
        law_one_error_per_failed_account(prefix);
        assert forall|i: int| 0 <= i < prefix.len() implies prefix[i] == outcomes[i] by {}
        if sync_errors(outcomes).len() == 0 {
            assert forall|i: int| 0 <= i < outcomes.len() implies (#[trigger] outcomes[i]).1 is Ok by {
                if i < prefix.len() {
                    assert(prefix[i] == outcomes[i]);
                } else {
                    assert(outcomes[i] == outcomes.last());
                }
            }
        }
        if forall|i: int| 0 <= i < outcomes.len() ==> (#[trigger] outcomes[i]).1 is Ok {
            assert(outcomes[outcomes.len() - 1] == outcomes.last());
            assert forall|i: int| 0 <= i < prefix.len() implies (#[trigger] prefix[i]).1 is Ok by {
                assert(prefix[i] == outcomes[i]);
            }
        }
    }
}

/// Whether a stored body is only headers (blank, or an IMAP response line) so that the full
/// body has to be fetched from the server.
pub open spec fn body_needs_fetch(body: Seq<char>) -> bool {
    trim_seq(body).len() == 0 || starts_with_seq(body, "* "@)
}

/// Whether the full body of a stored email has to be fetched from the server.
pub fn needs_remote_body(body: &str) -> (r: bool)
    ensures
        r == body_needs_fetch(body@),
{
    let b = chars_of(body);
    let t = trim_chars(b.as_slice());
    t.len() == 0 || starts_with_str(b.as_slice(), "* ")
}

/// A content type without its parameters: what precedes the first `;`, trimmed; the whole
/// text when it has no `;`.
pub open spec fn base_content_type(ct: Seq<char>) -> Seq<char> {
    match find_seq(ct, ";"@) {
        Some(i) => trim_seq(ct.subrange(0, i)),
        None => ct,
    }
}

/// The content type the reader renders a body with: its base type, except that a
/// multipart type whose body shows HTML markup (`<html`, `<body` or `<p>`) is rendered as
/// `text/html`.
pub open spec fn shown_content_type(ct: Seq<char>, body: Seq<char>) -> Seq<char> {
    let base = base_content_type(ct);
    if starts_with_seq(base, "multipart/"@) && (contains_seq(body, "<html"@) || contains_seq(
        body,
        "<body"@,
    ) || contains_seq(body, "<p>"@)) {
        "text/html"@
    } else {
        base
    }
}

/// The content type the reader renders a body with.
pub fn display_content_type(content_type: &str, body: &str) -> (r: String)
    ensures
        r@ == shown_content_type(content_type@, body@),
{
    let ct = chars_of(content_type);
    let base = match find_str(ct.as_slice(), ";") {
        Some(i) => {
            proof {
                lemma_find_from(ct@, ";"@, 0);
            }
            let head = copy_range(ct.as_slice(), 0, i);
            trim_chars(head.as_slice())
        },
        None => ct,
    };
    let b = chars_of(body);
    if starts_with_str(base.as_slice(), "multipart/") && (contains_str(b.as_slice(), "<html")
        || contains_str(b.as_slice(), "<body") || contains_str(b.as_slice(), "<p>")) {
        "text/html".to_owned()
    } else {
        string_of(base.as_slice())
    }
}

/// The body and content type the reader is sent: the content type as rendered, and the
/// body cleaned for e-ink when that type is `text/html`.
pub open spec fn presented(body: Seq<char>, ct: Seq<char>) -> (Seq<char>, Seq<char>) {
    let shown = shown_content_type(ct, body);
    if shown == "text/html"@ {
        (sanitized(body), shown)
    } else {
        (body, shown)
    }
}

/// Prepares a stored body for the reader: `(body, content type)` as `presented` gives them.
pub fn present_email_body(body: &str, content_type: &str) -> (r: (String, String))
    requires
        shown_content_type(content_type@, body@) == "text/html"@ ==> sanitize_patterns_compile(),
    ensures
        (r.0@, r.1@) == presented(body@, content_type@),
{
    let shown = display_content_type(content_type, body);
    if same_text(shown.as_str(), "text/html") {
        (sanitize_html(body), shown)
    } else {
        (body.to_owned(), shown)
    }
}

/// Prepares a stored body for the reader, or `None` when it is HTML and one of the cleaning
/// patterns does not compile.
pub fn try_present_email_body(body: &str, content_type: &str) -> (r: Option<(String, String)>)
    ensures
        match r {
            Some(p) => (p.0@, p.1@) == presented(body@, content_type@),
            None => shown_content_type(content_type@, body@) == "text/html"@
                && !sanitize_patterns_compile(),
        },
{
    let shown = display_content_type(content_type, body);
    if same_text(shown.as_str(), "text/html") && !sanitize_patterns_ok() {
        return None;
    }
    Some(present_email_body(body, content_type))
}

} // verus!
