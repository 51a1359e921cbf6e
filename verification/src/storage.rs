//! The schema decisions of the local store: which columns an older `email_metadata` table
//! lacks, and the statements that add them.
use vstd::prelude::*;
use crate::imap_conn::views_of_strings;
use crate::text::chars_of;

verus! {

/// Adds the content type column.
pub const ADD_CONTENT_TYPE: &'static str =
    "ALTER TABLE email_metadata ADD COLUMN content_type TEXT DEFAULT 'text/plain';";

/// Adds the In-Reply-To column.
pub const ADD_IN_REPLY_TO: &'static str =
    "ALTER TABLE email_metadata ADD COLUMN in_reply_to TEXT DEFAULT '';";

/// Adds the thread id column.
pub const ADD_THREAD_ID: &'static str = "ALTER TABLE email_metadata ADD COLUMN thread_id TEXT;";

/// Starts a thread of its own for every row that had no thread id.
pub const FILL_THREAD_ID: &'static str =
    "UPDATE email_metadata SET thread_id = id WHERE thread_id IS NULL;";

/// Adds the attachment marker column.
pub const ADD_HAS_ATTACHMENTS: &'static str =
    "ALTER TABLE email_metadata ADD COLUMN has_attachments INTEGER DEFAULT 0;";

/// Whether `name` is among the column names.
pub open spec fn has_column(columns: Seq<String>, name: Seq<char>) -> bool {
    exists|i: int| 0 <= i < columns.len() && (#[trigger] columns[i])@ == name
}

/// The statements that bring an `email_metadata` table with the given columns up to date, in
/// order: each missing column is added, and a thread id column added to existing rows is
/// filled with each row's own id.
pub open spec fn migration_plan(columns: Seq<String>) -> Seq<Seq<char>> {
    (if has_column(columns, "content_type"@) {
        Seq::empty()
    } else {
        seq![ADD_CONTENT_TYPE@]
    }) + (if has_column(columns, "in_reply_to"@) {
        Seq::empty()
    } else {
        seq![ADD_IN_REPLY_TO@]
    }) + (if has_column(columns, "thread_id"@) {
        Seq::empty()
    } else {
        seq![ADD_THREAD_ID@, FILL_THREAD_ID@]
    }) + (if has_column(columns, "has_attachments"@) {
        Seq::empty()
    } else {
        seq![ADD_HAS_ATTACHMENTS@]
    })
}

fn same_chars(a: &Vec<char>, b: &Vec<char>) -> (r: bool)
    ensures
        r == (a@ == b@),
{
    if a.len() != b.len() {
        return false;
    }
    let mut i: usize = 0;
    while i < a.len()
        invariant
            a@.len() == b@.len(),
            0 <= i <= a@.len(),
            forall|k: int| 0 <= k < i ==> a@[k] == b@[k],
        decreases a@.len() - i,
    {
        if a[i] != b[i] {
            return false;
        }
        i = i + 1;
    }
    assert(a@ =~= b@);
    true
}

/// Whether the column `name` is among `columns`.
pub fn column_present(columns: &Vec<String>, name: &str) -> (r: bool)
    ensures
        r == has_column(columns@, name@),
{
    let n = chars_of(name);
    let mut i: usize = 0;
    while i < columns.len()
        invariant
            n@ == name@,
            0 <= i <= columns@.len(),
            forall|k: int| 0 <= k < i ==> (#[trigger] columns@[k])@ != name@,
        decreases columns@.len() - i,
    {
        let c = chars_of(columns[i].as_str());
        if same_chars(&c, &n) {
            return true;
        }
        i = i + 1;
    }
    false
}

/// The statements that bring an `email_metadata` table with the given columns up to date.
pub fn migration_statements(columns: &Vec<String>) -> (r: Vec<String>)
    ensures
        views_of_strings(r@) == migration_plan(columns@),
{
    let mut r: Vec<String> = Vec::new();
    if !column_present(columns, "content_type") {
        r.push(ADD_CONTENT_TYPE.to_owned());
    }
    let ghost p1 = views_of_strings(r@);
    assert(p1 =~= if has_column(columns@, "content_type"@) {
        Seq::<Seq<char>>::empty()
    } else {
        seq![ADD_CONTENT_TYPE@]
    });
    if !column_present(columns, "in_reply_to") {
        r.push(ADD_IN_REPLY_TO.to_owned());
    }
    let ghost p2 = views_of_strings(r@);
    assert(p2 =~= p1 + if has_column(columns@, "in_reply_to"@) {
        Seq::<Seq<char>>::empty()
    } else {
        seq![ADD_IN_REPLY_TO@]
    });
    if !column_present(columns, "thread_id") {
        r.push(ADD_THREAD_ID.to_owned());
        r.push(FILL_THREAD_ID.to_owned());
    }
    let ghost p3 = views_of_strings(r@);
    assert(p3 =~= p2 + if has_column(columns@, "thread_id"@) {
        Seq::<Seq<char>>::empty()
    } else {
        seq![ADD_THREAD_ID@, FILL_THREAD_ID@]
    });
    if !column_present(columns, "has_attachments") {
        r.push(ADD_HAS_ATTACHMENTS.to_owned());
    }
    assert(views_of_strings(r@) =~= p3 + if has_column(columns@, "has_attachments"@) {
        Seq::<Seq<char>>::empty()
    } else {
        seq![ADD_HAS_ATTACHMENTS@]
    });
    r
}

/// Migrating a table that already has every column runs nothing.
pub proof fn law_current_table_needs_no_migration(columns: Seq<String>)
    requires
        has_column(columns, "content_type"@),
        has_column(columns, "in_reply_to"@),
        has_column(columns, "thread_id"@),
        has_column(columns, "has_attachments"@),
    ensures
        migration_plan(columns).len() == 0,
{
}

} // verus!
