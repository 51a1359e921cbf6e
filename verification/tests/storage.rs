use remailable::storage::{
    column_present, migration_statements, ADD_CONTENT_TYPE, ADD_HAS_ATTACHMENTS, ADD_IN_REPLY_TO,
    ADD_THREAD_ID, FILL_THREAD_ID,
};

fn cols(names: &[&str]) -> Vec<String> {
    names.iter().map(|s| s.to_string()).collect()
}

#[test]
fn old_tables_get_every_missing_column() {
    let old = cols(&["id", "account_id", "folder", "uid", "subject"]);
    assert_eq!(
        migration_statements(&old),
        vec![ADD_CONTENT_TYPE, ADD_IN_REPLY_TO, ADD_THREAD_ID, FILL_THREAD_ID, ADD_HAS_ATTACHMENTS]
    );
}

#[test]
fn current_tables_need_nothing() {
    let cur = cols(&["id", "content_type", "in_reply_to", "thread_id", "has_attachments"]);
    assert!(migration_statements(&cur).is_empty());
    let partial = cols(&["id", "content_type", "thread_id"]);
    assert_eq!(migration_statements(&partial), vec![ADD_IN_REPLY_TO, ADD_HAS_ATTACHMENTS]);
    assert!(column_present(&partial, "thread_id"));
    assert!(!column_present(&partial, "Thread_id"));
}
