//! The state behind the app's QML models: the account, folder, email and attachment lists,
//! and the email reader. Each list caches what storage returned; its count is the number of
//! entries, and out-of-range lookups give an empty value.
//!
//! Storage and the file system stay with the caller: a method that needs what storage holds
//! takes storage's answer as an argument (`Err` when the query failed, which empties the
//! list), and a method that changes storage is split into the decision (what to write) and
//! the update of the cache once the write succeeded.
use vstd::prelude::*;
use crate::account::{AccountConfig, AttachmentMetadata, EmailMetadata};
use crate::imap_conn::concat_str;

verus! {

/// What a storage query gave: its rows, or nothing when it failed.
pub open spec fn loaded<T>(listed: Result<Vec<T>, String>) -> Seq<T> {
    match listed {
        Ok(v) => v@,
        Err(_) => Seq::empty(),
    }
}

/// Whether `index` points into a list of `len` entries.
pub open spec fn in_range(index: i32, len: nat) -> bool {
    0 <= index && index < len
}

fn loaded_vec<T>(listed: Result<Vec<T>, String>) -> (r: Vec<T>)
    ensures
        r@ == loaded(listed),
{
    match listed {
        Ok(v) => v,
        Err(_) => Vec::new(),
    }
}

fn count_of(len: usize) -> (r: i32)
    ensures
        r == len as i32,
{
    len as i32
}

/// The string at `index`, or an empty string out of range.
fn text_at(items: &Vec<String>, index: i32) -> (r: String)
    ensures
        r@ == if in_range(index, items@.len()) {
            items@[index as int]@
        } else {
            Seq::<char>::empty()
        },
{
    if index < 0 || index as usize >= items.len() {
        return String::new();
    }
    items[index as usize].clone()
}

/// State of the AppModel: navigation, sync status and validation state shown by the app.
pub struct AppModelRust {
    pub current_view: String,
    pub active_account_id: String,
    pub sync_status_text: String,
    pub validation_status: String,
    pub validation_error: String,
    pub selected_folder: String,
    pub selected_email_id: String,
    pub active_account_name: String,
}

impl AppModelRust {
    /// All properties empty.
    pub fn new() -> (r: Self)
        ensures
            r.current_view@.len() == 0,
            r.active_account_id@.len() == 0,
            r.sync_status_text@.len() == 0,
            r.validation_status@.len() == 0,
            r.validation_error@.len() == 0,
            r.selected_folder@.len() == 0,
            r.selected_email_id@.len() == 0,
            r.active_account_name@.len() == 0,
    {
        AppModelRust {
            current_view: String::new(),
            active_account_id: String::new(),
            sync_status_text: String::new(),
            validation_status: String::new(),
            validation_error: String::new(),
            selected_folder: String::new(),
            selected_email_id: String::new(),
            active_account_name: String::new(),
        }
    }
}

// ---------------------------------------------------------------------------------------------
// Accounts
// ---------------------------------------------------------------------------------------------

/// The account list: the accounts storage listed.
pub struct AccountListModelRust {
    accounts: Vec<AccountConfig>,
}

/// The account list model: lists the configured accounts.
pub struct AccountListModel {
    rust: AccountListModelRust,
}

impl View for AccountListModel {
    type V = Seq<AccountConfig>;

    closed spec fn view(&self) -> Seq<AccountConfig> {
        self.rust.accounts@
    }
}

impl AccountListModel {
    /// An empty list.
    pub fn new() -> (r: Self)
        ensures
            r@ == Seq::<AccountConfig>::empty(),
    {
        AccountListModel { rust: AccountListModelRust { accounts: Vec::new() } }
    }

    /// The number of accounts listed.
    pub fn account_count(&self) -> (r: i32)
        ensures
            r == self@.len() as i32,
    {
        count_of(self.rust.accounts.len())
    }

    /// Replaces the list with what storage listed (nothing when listing failed).
    pub fn refresh_accounts(&mut self, listed: Result<Vec<AccountConfig>, String>)
        ensures
            final(self)@ == loaded(listed),
    {
        let accounts = loaded_vec(listed);
        self.rust = AccountListModelRust { accounts };
    }

    /// The accounts a "sync all" goes through: those storage lists now, none when listing
    /// failed. The cached list is not consulted.
    pub fn sync_all(&self, listed: Result<Vec<AccountConfig>, String>) -> (r: Vec<AccountConfig>)
        ensures
            r@ == loaded(listed),
    {
        loaded_vec(listed)
    }

    /// The id of the account at `index`, or an empty string.
    pub fn get_account_id(&self, index: i32) -> (r: String)
        ensures
            r@ == if in_range(index, self@.len()) {
                self@[index as int].id@
            } else {
                Seq::<char>::empty()
            },
    {
        if index < 0 || index as usize >= self.rust.accounts.len() {
            return String::new();
        }
        self.rust.accounts[index as usize].id.clone()
    }

    /// The display name of the account at `index`, or an empty string.
    pub fn get_account_display_name(&self, index: i32) -> (r: String)
        ensures
            r@ == if in_range(index, self@.len()) {
                self@[index as int].display_name@
            } else {
                Seq::<char>::empty()
            },
    {
        if index < 0 || index as usize >= self.rust.accounts.len() {
            return String::new();
        }
        self.rust.accounts[index as usize].display_name.clone()
    }

    /// The IMAP host of the account at `index`, or an empty string.
    pub fn get_account_imap_host(&self, index: i32) -> (r: String)
        ensures
            r@ == if in_range(index, self@.len()) {
                self@[index as int].imap_host@
            } else {
                Seq::<char>::empty()
            },
    {
        if index < 0 || index as usize >= self.rust.accounts.len() {
            return String::new();
        }
        self.rust.accounts[index as usize].imap_host.clone()
    }
}

// ---------------------------------------------------------------------------------------------
// Folders
// ---------------------------------------------------------------------------------------------

/// The folder list of the active account.
pub struct FolderListModelRust {
    folders: Vec<String>,
}

/// The folder list model: lists the folders of the active account.
pub struct FolderListModel {
    rust: FolderListModelRust,
}

impl View for FolderListModel {
    type V = Seq<String>;

    closed spec fn view(&self) -> Seq<String> {
        self.rust.folders@
    }
}

impl FolderListModel {
    /// An empty list.
    pub fn new() -> (r: Self)
        ensures
            r@ == Seq::<String>::empty(),
    {
        FolderListModel { rust: FolderListModelRust { folders: Vec::new() } }
    }

    /// The number of folders listed.
    pub fn folder_count(&self) -> (r: i32)
        ensures
            r == self@.len() as i32,
    {
        count_of(self.rust.folders.len())
    }

    /// Replaces the list with the folders storage listed for the account (nothing when
    /// listing failed).
    pub fn refresh_folders(&mut self, listed: Result<Vec<String>, String>)
        ensures
            final(self)@ == loaded(listed),
    {
        let folders = loaded_vec(listed);
        self.rust = FolderListModelRust { folders };
    }

    /// The name of the folder at `index`, or an empty string.
    pub fn get_folder_name(&self, index: i32) -> (r: String)
        ensures
            r@ == if in_range(index, self@.len()) {
                self@[index as int]@
            } else {
                Seq::<char>::empty()
            },
    {
        text_at(&self.rust.folders, index)
    }

    /// Selecting a folder only checks the index: the QML side reads the name with
    /// `get_folder_name` and navigates. The model is left as it was.
    pub fn select_folder(&mut self, index: i32)
        ensures
            *final(self) == *old(self),
    {
        if index < 0 || index as usize >= self.rust.folders.len() {
            return;
        }
    }
}

// ---------------------------------------------------------------------------------------------
// Emails
// ---------------------------------------------------------------------------------------------

/// What the email list shows: the cached emails, the folder and account they were listed
/// for, and whether they are search results or grouped by thread.
pub ghost struct EmailListView {
    pub emails: Seq<EmailMetadata>,
    pub current_folder: Seq<char>,
    pub account_id: Seq<char>,
    pub is_searching: bool,
    pub thread_mode: bool,
}

/// `e` with its read flag set to `read`.
pub open spec fn with_read(e: EmailMetadata, read: bool) -> EmailMetadata {
    EmailMetadata { read, ..e }
}

/// The emails with the read flag of the one at `i` flipped.
pub open spec fn toggled_read(emails: Seq<EmailMetadata>, i: int) -> Seq<EmailMetadata> {
    emails.update(i, with_read(emails[i], !emails[i].read))
}

/// The email list of a folder, of a search, or of a folder grouped by thread.
pub struct EmailListModelRust {
    current_folder: String,
    is_searching: bool,
    thread_mode: bool,
    emails: Vec<EmailMetadata>,
    account_id: String,
}

/// The email list model: browses a folder, search results, or a folder by thread.
pub struct EmailListModel {
    rust: EmailListModelRust,
}

impl View for EmailListModel {
    type V = EmailListView;

    closed spec fn view(&self) -> EmailListView {
        EmailListView {
            emails: self.rust.emails@,
            current_folder: self.rust.current_folder@,
            account_id: self.rust.account_id@,
            is_searching: self.rust.is_searching,
            thread_mode: self.rust.thread_mode,
        }
    }
}

impl EmailListModel {
    /// An empty list, for no folder or account, in plain (not search, not thread) mode.
    pub fn new() -> (r: Self)
        ensures
            r@.emails == Seq::<EmailMetadata>::empty(),
            r@.current_folder == Seq::<char>::empty(),
            r@.account_id == Seq::<char>::empty(),
            !r@.is_searching,
            !r@.thread_mode,
    {
        EmailListModel {
            rust: EmailListModelRust {
                current_folder: String::new(),
                is_searching: false,
                thread_mode: false,
                emails: Vec::new(),
                account_id: String::new(),
            },
        }
    }

    /// The number of emails listed.
    pub fn email_count(&self) -> (r: i32)
        ensures
            r == self@.emails.len() as i32,
    {
        count_of(self.rust.emails.len())
    }

    /// The folder the list was last loaded for.
    pub fn current_folder(&self) -> (r: String)
        ensures
            r@ == self@.current_folder,
    {
        self.rust.current_folder.clone()
    }

    /// The account the list was last loaded for; searches and refreshes query it.
    pub fn account_id(&self) -> (r: String)
        ensures
            r@ == self@.account_id,
    {
        self.rust.account_id.clone()
    }

    /// Whether the list holds search results.
    pub fn is_searching(&self) -> (r: bool)
        ensures
            r == self@.is_searching,
    {
        self.rust.is_searching
    }

    /// Whether the list is shown grouped by thread.
    pub fn thread_mode(&self) -> (r: bool)
        ensures
            r == self@.thread_mode,
    {
        self.rust.thread_mode
    }

    /// Shows what storage listed for `folder` of `account_id`, in plain mode.
    pub fn refresh_emails(
        &mut self,
        account_id: String,
        folder: String,
        listed: Result<Vec<EmailMetadata>, String>,
    )
        ensures
            final(self)@ == (EmailListView {
                emails: loaded(listed),
                current_folder: folder@,
                account_id: account_id@,
                is_searching: false,
                thread_mode: false,
            }),
    {
        let emails = loaded_vec(listed);
        self.rust = EmailListModelRust {
            current_folder: folder,
            is_searching: false,
            thread_mode: false,
            emails,
            account_id,
        };
    }

    /// The id of the email at `index`, or an empty string.
    pub fn get_email_id(&self, index: i32) -> (r: String)
        ensures
            r@ == if in_range(index, self@.emails.len()) {
                self@.emails[index as int].id@
            } else {
                Seq::<char>::empty()
            },
    {
        if index < 0 || index as usize >= self.rust.emails.len() {
            return String::new();
        }
        self.rust.emails[index as usize].id.clone()
    }

    /// The subject of the email at `index`, or an empty string.
    pub fn get_email_subject(&self, index: i32) -> (r: String)
        ensures
            r@ == if in_range(index, self@.emails.len()) {
                self@.emails[index as int].subject@
            } else {
                Seq::<char>::empty()
            },
    {
        if index < 0 || index as usize >= self.rust.emails.len() {
            return String::new();
        }
        self.rust.emails[index as usize].subject.clone()
    }

    /// The sender of the email at `index`, or an empty string.
    pub fn get_email_from(&self, index: i32) -> (r: String)
        ensures
            r@ == if in_range(index, self@.emails.len()) {
                self@.emails[index as int].from_addr@
            } else {
                Seq::<char>::empty()
            },
    {
        if index < 0 || index as usize >= self.rust.emails.len() {
            return String::new();
        }
        self.rust.emails[index as usize].from_addr.clone()
    }

    /// The date of the email at `index`, or an empty string.
    pub fn get_email_date(&self, index: i32) -> (r: String)
        ensures
            r@ == if in_range(index, self@.emails.len()) {
                self@.emails[index as int].date@
            } else {
                Seq::<char>::empty()
            },
    {
        if index < 0 || index as usize >= self.rust.emails.len() {
            return String::new();
        }
        self.rust.emails[index as usize].date.clone()
    }

    /// Whether the email at `index` is read; out of range counts as read.
    pub fn get_email_read(&self, index: i32) -> (r: bool)
        ensures
            r == if in_range(index, self@.emails.len()) {
                self@.emails[index as int].read
            } else {
                true
            },
    {
        if index < 0 || index as usize >= self.rust.emails.len() {
            return true;
        }
        self.rust.emails[index as usize].read
    }

    /// Whether the email at `index` has attachments; false out of range.
    pub fn get_email_has_attachments(&self, index: i32) -> (r: bool)
        ensures
            r == (in_range(index, self@.emails.len()) && self@.emails[index as int].has_attachments),
    {
        if index < 0 || index as usize >= self.rust.emails.len() {
            return false;
        }
        self.rust.emails[index as usize].has_attachments
    }

    /// The thread id of the email at `index`, or an empty string.
    pub fn get_email_thread_id(&self, index: i32) -> (r: String)
        ensures
            r@ == if in_range(index, self@.emails.len()) {
                self@.emails[index as int].thread_id@
            } else {
                Seq::<char>::empty()
            },
    {
        if index < 0 || index as usize >= self.rust.emails.len() {
            return String::new();
        }
        self.rust.emails[index as usize].thread_id.clone()
    }

    /// What toggling the email at `index` writes to storage: its id and its new read flag;
    /// nothing out of range.
    pub fn read_toggle_target(&self, index: i32) -> (r: Option<(String, bool)>)
        ensures
            r is Some <==> in_range(index, self@.emails.len()),
            r matches Some((id, read)) ==> id@ == self@.emails[index as int].id@ && read
                == !self@.emails[index as int].read,
    {
        if index < 0 || index as usize >= self.rust.emails.len() {
            return None;
        }
        let e = &self.rust.emails[index as usize];
        Some((e.id.clone(), !e.read))
    }

    /// Flips the cached read flag of the email at `index` once storage has recorded the
    /// change (`stored`); otherwise, or out of range, nothing changes.
    pub fn toggle_email_read(&mut self, index: i32, stored: bool)
        ensures
            final(self)@ == if stored && in_range(index, old(self)@.emails.len()) {
                EmailListView { emails: toggled_read(old(self)@.emails, index as int), ..old(self)@ }
            } else {
                old(self)@
            },
    {
        if index < 0 || index as usize >= self.rust.emails.len() || !stored {
            return;
        }
        let idx = index as usize;
        let new_read = !self.rust.emails[idx].read;
        self.rust.emails[idx].read = new_read;
        assert(self.rust.emails@ == toggled_read(old(self).rust.emails@, index as int));
    }

    /// Shows the search results storage gave for the current account.
    pub fn search_emails(&mut self, found: Result<Vec<EmailMetadata>, String>)
        ensures
            final(self)@ == (EmailListView { emails: loaded(found), is_searching: true, ..old(self)@ }),
    {
        let emails = loaded_vec(found);
        let current_folder = self.rust.current_folder.clone();
        let account_id = self.rust.account_id.clone();
        self.rust = EmailListModelRust {
            current_folder,
            is_searching: true,
            thread_mode: self.rust.thread_mode,
            emails,
            account_id,
        };
    }

    /// Leaves search: shows what storage lists again for the current account and folder.
    pub fn clear_search(&mut self, listed: Result<Vec<EmailMetadata>, String>)
        ensures
            final(self)@ == (EmailListView {
                emails: loaded(listed),
                is_searching: false,
                ..old(self)@
            }),
    {
        let emails = loaded_vec(listed);
        let current_folder = self.rust.current_folder.clone();
        let account_id = self.rust.account_id.clone();
        self.rust = EmailListModelRust {
            current_folder,
            is_searching: false,
            thread_mode: self.rust.thread_mode,
            emails,
            account_id,
        };
    }

    /// Shows what storage listed for `folder` of `account_id`, grouped by thread (the
    /// grouping is drawn by the view from the thread ids). The search flag is kept.
    pub fn refresh_threaded(
        &mut self,
        account_id: String,
        folder: String,
        listed: Result<Vec<EmailMetadata>, String>,
    )
        ensures
            final(self)@ == (EmailListView {
                emails: loaded(listed),
                current_folder: folder@,
                account_id: account_id@,
                is_searching: old(self)@.is_searching,
                thread_mode: true,
            }),
    {
        let emails = loaded_vec(listed);
        self.rust = EmailListModelRust {
            current_folder: folder,
            is_searching: self.rust.is_searching,
            thread_mode: true,
            emails,
            account_id,
        };
    }
}

/// Toggling the same email twice, both times recorded by storage, gives back the list as it
/// was.
pub proof fn law_toggle_twice_restores(emails: Seq<EmailMetadata>, i: int)
    requires
        0 <= i < emails.len(),
    ensures
        toggled_read(toggled_read(emails, i), i) == emails,
{
    let once = toggled_read(emails, i);
    assert(once[i].read == !emails[i].read);
    assert(with_read(once[i], !once[i].read) == emails[i]);
    assert(toggled_read(once, i) =~= emails);
}

/// Toggling changes only the read flag of the email toggled: every other email, and every
/// other field of that one, stays as it was.
pub proof fn law_toggle_touches_only_read(emails: Seq<EmailMetadata>, i: int, j: int)
    requires
        0 <= i < emails.len(),
        0 <= j < emails.len(),
    ensures
        toggled_read(emails, i).len() == emails.len(),
        j != i ==> toggled_read(emails, i)[j] == emails[j],
        toggled_read(emails, i)[i].read == !emails[i].read,
        toggled_read(emails, i)[i].id == emails[i].id,
        with_read(toggled_read(emails, i)[i], emails[i].read) == emails[i],
{
}

// ---------------------------------------------------------------------------------------------
// Email reader
// ---------------------------------------------------------------------------------------------

/// The email shown in the reader, and the emails of the thread it belongs to.
pub struct EmailReaderModelRust {
    pub email_subject: String,
    pub email_from: String,
    pub email_date: String,
    pub email_body: String,
    /// "text/plain" or "text/html": how the body is rendered.
    pub email_content_type: String,
    pub email_thread_id: String,
    pub email_is_read: bool,
    pub email_has_attachments: bool,
    /// The email whose attachments the attachment list shows.
    pub attachment_email_id: String,
    pub thread_emails: Vec<EmailMetadata>,
}

/// The email reader model: shows one email and the thread it belongs to.
pub struct EmailReaderModel {
    pub rust: EmailReaderModelRust,
}

impl EmailReaderModel {
    /// Nothing loaded.
    pub fn new() -> (r: Self)
        ensures
            r.rust.email_subject@.len() == 0,
            r.rust.email_from@.len() == 0,
            r.rust.email_date@.len() == 0,
            r.rust.email_body@.len() == 0,
            r.rust.email_content_type@.len() == 0,
            r.rust.email_thread_id@.len() == 0,
            !r.rust.email_is_read,
            !r.rust.email_has_attachments,
            r.rust.attachment_email_id@.len() == 0,
            r.rust.thread_emails@.len() == 0,
    {
        EmailReaderModel {
            rust: EmailReaderModelRust {
                email_subject: String::new(),
                email_from: String::new(),
                email_date: String::new(),
                email_body: String::new(),
                email_content_type: String::new(),
                email_thread_id: String::new(),
                email_is_read: false,
                email_has_attachments: false,
                attachment_email_id: String::new(),
                thread_emails: Vec::new(),
            },
        }
    }

    /// Shows the email storage found for `email_id`, with the body read from its file; the
    /// email counts as read (the caller marks it so in storage). When storage found nothing
    /// the reader is left as it was.
    pub fn load_email(&mut self, email_id: String, found: Option<EmailMetadata>, body: String)
        ensures
            found is None ==> *final(self) == *old(self),
            found matches Some(e) ==> {
                &&& final(self).rust.email_subject == e.subject
                &&& final(self).rust.email_from == e.from_addr
                &&& final(self).rust.email_date == e.date
                &&& final(self).rust.email_body == body
                &&& final(self).rust.email_content_type == e.content_type
                &&& final(self).rust.email_thread_id == e.thread_id
                &&& final(self).rust.email_is_read
                &&& final(self).rust.email_has_attachments == e.has_attachments
                &&& final(self).rust.attachment_email_id == email_id
                &&& final(self).rust.thread_emails == old(self).rust.thread_emails
            },
    {
        match found {
            None => {},
            Some(e) => {
                self.rust.email_subject = e.subject;
                self.rust.email_from = e.from_addr;
                self.rust.email_date = e.date;
                self.rust.email_body = body;
                self.rust.email_content_type = e.content_type;
                self.rust.email_thread_id = e.thread_id;
                self.rust.email_is_read = true;
                self.rust.email_has_attachments = e.has_attachments;
                self.rust.attachment_email_id = email_id;
            },
        }
    }

    /// Replaces the thread with the emails storage listed for it (nothing when listing
    /// failed).
    pub fn load_thread(&mut self, listed: Result<Vec<EmailMetadata>, String>)
        ensures
            final(self).rust.thread_emails@ == loaded(listed),
            final(self).rust.email_subject == old(self).rust.email_subject,
            final(self).rust.email_from == old(self).rust.email_from,
            final(self).rust.email_date == old(self).rust.email_date,
            final(self).rust.email_body == old(self).rust.email_body,
            final(self).rust.email_content_type == old(self).rust.email_content_type,
            final(self).rust.email_thread_id == old(self).rust.email_thread_id,
            final(self).rust.email_is_read == old(self).rust.email_is_read,
            final(self).rust.email_has_attachments == old(self).rust.email_has_attachments,
            final(self).rust.attachment_email_id == old(self).rust.attachment_email_id,
    {
        self.rust.thread_emails = loaded_vec(listed);
    }

    /// The number of emails in the loaded thread.
    pub fn get_thread_count(&self) -> (r: i32)
        ensures
            r == self.rust.thread_emails@.len() as i32,
    {
        count_of(self.rust.thread_emails.len())
    }

    /// The id of the thread email at `index`, or an empty string.
    pub fn get_thread_email_id(&self, index: i32) -> (r: String)
        ensures
            r@ == if in_range(index, self.rust.thread_emails@.len()) {
                self.rust.thread_emails@[index as int].id@
            } else {
                Seq::<char>::empty()
            },
    {
        if index < 0 || index as usize >= self.rust.thread_emails.len() {
            return String::new();
        }
        self.rust.thread_emails[index as usize].id.clone()
    }

    /// The subject of the thread email at `index`, or an empty string.
    pub fn get_thread_email_subject(&self, index: i32) -> (r: String)
        ensures
            r@ == if in_range(index, self.rust.thread_emails@.len()) {
                self.rust.thread_emails@[index as int].subject@
            } else {
                Seq::<char>::empty()
            },
    {
        if index < 0 || index as usize >= self.rust.thread_emails.len() {
            return String::new();
        }
        self.rust.thread_emails[index as usize].subject.clone()
    }

    /// The date of the thread email at `index`, or an empty string.
    pub fn get_thread_email_date(&self, index: i32) -> (r: String)
        ensures
            r@ == if in_range(index, self.rust.thread_emails@.len()) {
                self.rust.thread_emails@[index as int].date@
            } else {
                Seq::<char>::empty()
            },
    {
        if index < 0 || index as usize >= self.rust.thread_emails.len() {
            return String::new();
        }
        self.rust.thread_emails[index as usize].date.clone()
    }

    /// Renders the body as HTML from now on.
    pub fn show_html(&mut self)
        ensures
            final(self).rust.email_content_type@ == "text/html"@,
            final(self).rust == (EmailReaderModelRust {
                email_content_type: final(self).rust.email_content_type,
                ..old(self).rust
            }),
    {
        self.rust.email_content_type = "text/html".to_owned();
    }

    /// Renders the body as plain text from now on.
    pub fn show_plain_text(&mut self)
        ensures
            final(self).rust.email_content_type@ == "text/plain"@,
            final(self).rust == (EmailReaderModelRust {
                email_content_type: final(self).rust.email_content_type,
                ..old(self).rust
            }),
    {
        self.rust.email_content_type = "text/plain".to_owned();
    }
}

// ---------------------------------------------------------------------------------------------
// Attachments
// ---------------------------------------------------------------------------------------------

/// Where a downloaded attachment is copied from and to, relative to the data directory.
pub struct AttachmentDownload {
    /// The attachment's id in storage.
    pub attachment_id: String,
    /// Where the sync saved the file: `remailable/attachments/{account}/{email}/{filename}`.
    pub source: String,
    /// The directory to create: `remailable/downloads/{email}`.
    pub dest_dir: String,
    /// The copy, also recorded as the attachment's local path:
    /// `remailable/downloads/{email}/{filename}`.
    pub local_path: String,
}

/// Where the sync stores an attachment's file, relative to the data directory.
pub open spec fn attachment_source(a: AttachmentMetadata) -> Seq<char> {
    "remailable/attachments/"@ + a.account_id@ + "/"@ + a.email_id@ + "/"@ + a.filename@
}

/// The directory an attachment is downloaded into.
pub open spec fn download_dir(a: AttachmentMetadata) -> Seq<char> {
    "remailable/downloads/"@ + a.email_id@
}

/// Where an attachment is downloaded to, relative to the data directory.
pub open spec fn download_path(a: AttachmentMetadata) -> Seq<char> {
    download_dir(a) + "/"@ + a.filename@
}

/// The attachments of the email shown in the reader.
pub struct AttachmentListModelRust {
    attachments: Vec<AttachmentMetadata>,
}

/// The attachment list model: lists the attachments of one email and downloads them.
pub struct AttachmentListModel {
    rust: AttachmentListModelRust,
}

impl View for AttachmentListModel {
    type V = Seq<AttachmentMetadata>;

    closed spec fn view(&self) -> Seq<AttachmentMetadata> {
        self.rust.attachments@
    }
}

impl AttachmentListModel {
    /// An empty list.
    pub fn new() -> (r: Self)
        ensures
            r@ == Seq::<AttachmentMetadata>::empty(),
    {
        AttachmentListModel { rust: AttachmentListModelRust { attachments: Vec::new() } }
    }

    /// The number of attachments listed.
    pub fn attachment_count(&self) -> (r: i32)
        ensures
            r == self@.len() as i32,
    {
        count_of(self.rust.attachments.len())
    }

    /// Replaces the list with the attachments storage listed for an email (nothing when
    /// listing failed).
    pub fn load_attachments(&mut self, listed: Result<Vec<AttachmentMetadata>, String>)
        ensures
            final(self)@ == loaded(listed),
    {
        let attachments = loaded_vec(listed);
        self.rust = AttachmentListModelRust { attachments };
    }

    /// The file name of the attachment at `index`, or an empty string.
    pub fn get_attachment_filename(&self, index: i32) -> (r: String)
        ensures
            r@ == if in_range(index, self@.len()) {
                self@[index as int].filename@
            } else {
                Seq::<char>::empty()
            },
    {
        if index < 0 || index as usize >= self.rust.attachments.len() {
            return String::new();
        }
        self.rust.attachments[index as usize].filename.clone()
    }

    /// The size in bytes of the attachment at `index`, cut to 32 bits; 0 out of range.
    pub fn get_attachment_size(&self, index: i32) -> (r: i32)
        ensures
            r == if in_range(index, self@.len()) {
                self@[index as int].size as i32
            } else {
                0
            },
    {
        if index < 0 || index as usize >= self.rust.attachments.len() {
            return 0;
        }
        self.rust.attachments[index as usize].size as i32
    }

    /// The content type of the attachment at `index`, or an empty string.
    pub fn get_attachment_content_type(&self, index: i32) -> (r: String)
        ensures
            r@ == if in_range(index, self@.len()) {
                self@[index as int].content_type@
            } else {
                Seq::<char>::empty()
            },
    {
        if index < 0 || index as usize >= self.rust.attachments.len() {
            return String::new();
        }
        self.rust.attachments[index as usize].content_type.clone()
    }

    /// Whether the attachment at `index` has been downloaded; false out of range.
    pub fn is_attachment_downloaded(&self, index: i32) -> (r: bool)
        ensures
            r == (in_range(index, self@.len()) && self@[index as int].downloaded),
    {
        if index < 0 || index as usize >= self.rust.attachments.len() {
            return false;
        }
        self.rust.attachments[index as usize].downloaded
    }

    /// Where downloading the attachment at `index` copies from and to; nothing out of range.
    pub fn download_target(&self, index: i32) -> (r: Option<AttachmentDownload>)
        ensures
            r is Some <==> in_range(index, self@.len()),
            r matches Some(d) ==> {
                let a = self@[index as int];
                &&& d.attachment_id@ == a.id@
                &&& d.source@ == attachment_source(a)
                &&& d.dest_dir@ == download_dir(a)
                &&& d.local_path@ == download_path(a)
            },
    {
        if index < 0 || index as usize >= self.rust.attachments.len() {
            return None;
        }
        let a = &self.rust.attachments[index as usize];
        let s1 = concat_str("remailable/attachments/", a.account_id.as_str());
        let s2 = concat_str(s1.as_str(), "/");
        let s3 = concat_str(s2.as_str(), a.email_id.as_str());
        let s4 = concat_str(s3.as_str(), "/");
        let source = concat_str(s4.as_str(), a.filename.as_str());
        let dest_dir = concat_str("remailable/downloads/", a.email_id.as_str());
        let d2 = concat_str(dest_dir.as_str(), "/");
        let local_path = concat_str(d2.as_str(), a.filename.as_str());
        Some(AttachmentDownload { attachment_id: a.id.clone(), source, dest_dir, local_path })
    }

    /// Records the download of the attachment at `index` once its file was copied
    /// (`copied`): the attachment is marked downloaded at its download path, which is
    /// returned. Otherwise, or out of range, nothing changes and the result is empty.
    pub fn download_attachment(&mut self, index: i32, copied: bool) -> (r: String)
        ensures
            copied && in_range(index, old(self)@.len()) ==> {
                let a = old(self)@[index as int];
                &&& r@ == download_path(a)
                &&& final(self)@ == old(self)@.update(
                    index as int,
                    AttachmentMetadata { downloaded: true, local_path: r, ..a },
                )
            },
            !(copied && in_range(index, old(self)@.len())) ==> r@.len() == 0 && final(self)@
                == old(self)@,
    {
        if index < 0 || index as usize >= self.rust.attachments.len() || !copied {
            return String::new();
        }
        let idx = index as usize;
        let target = self.download_target(index);
        let path = match target {
            Some(d) => d.local_path,
            None => String::new(),
        };
        self.rust.attachments[idx].downloaded = true;
        self.rust.attachments[idx].local_path = path.clone();
        path
    }
}

} // verus!
