# remailable

An IMAP email client for the reMarkable Paper Pro. A headless backend syncs the INBOX into a
local SQLite store and serves the QML frontend over AppLoad's SEQPACKET socket; the reader
shows HTML mail cleaned for the e-ink screen.

## Layout

- `src/` — the library, verified with Verus:
  - `text` — character-sequence helpers (search, trim, split, lines, decimal numbers, UTF-8).
  - `mime` — header fields, IMAP FETCH responses, MIME multipart bodies, base64,
    quoted-printable and character sets.
  - `matching`, `html` — regular-expression replacement and the HTML-to-e-ink conversion and
    cleaning.
  - `imap_conn`, `smtp_conn` — BODYSTRUCTURE reading, threading, connection outcomes.
  - `sync` — which UIDs a sync fetches and what it stores for each message.
  - `storage` — schema migration decisions.
  - `appload` — the socket protocol's framing and the backend loop's dispatch.
  - `models` — the state of the QML list and reader models.
  - `backend` — request handling: actions, account requests, sync reports, body display.
- `app/` — the backend program: sockets, SQLite, IMAP and SMTP sessions, files.
- `tests/` — tests of the library.
