//! remailable: the logic of an IMAP email client for the reMarkable Paper Pro. Mail is
//! parsed and prepared for the e-ink reader, synced incrementally into a local store, and
//! served to the QML frontend over the AppLoad socket protocol.
pub mod account;
pub mod text;
pub mod mime;
pub mod matching;
pub mod html;
pub mod imap_conn;
pub mod smtp_conn;
pub mod sync;
pub mod storage;
pub mod appload;
pub mod models;
pub mod backend;
