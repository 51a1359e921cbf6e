//! Reading raw mail as the IMAP server hands it over: header fields, bodies, MIME multipart
//! messages and their transfer encodings and character sets.
use vstd::prelude::*;
use base64::Engine;
use crate::text::{
    append_all, chars_of, find_str, is_ws, is_ws_exec, lines_of, lines_seq, lower_chars, lowercase,
    string_of, trim_chars, trim_seq, views, find_seq, decode_utf8_lossy, utf8_lossy, find_from,
    occurs_at, lemma_find_from, parse_digits, parse_digits_exec, digit_run_end, digit_run_end_exec,
    copy_range, utf8_bytes, char_index_at_byte, char_index_at_byte_exec, utf8_len, utf8_prefix_len,
    lemma_char_index_from_after, trim_start_set, trim_start_set_chars, contains_seq, contains_str,
    find_exec, starts_with_seq, trim_end_set, trim_end_str, split_seq, split_from, split_on,
    trim_end_set_chars, trim_end_str_chars, starts_with_str, starts_with_exec, parse_usize_seq,
    parse_usize_chars, char_index_from, char_index_from_exec, all_ascii, decimal,
    law_decimal_reads_back, is_digit, ascii_lower,
};

verus! {

/// The header fields that the mail list shows.
pub struct ParsedHeaders {
    pub subject: String,
    pub from: String,
    pub date: String,
    pub in_reply_to: String,
}

/// The header fields that the mail list shows, as character sequences.
pub struct HeaderFields {
    pub subject: Seq<char>,
    pub from: Seq<char>,
    pub date: Seq<char>,
    pub in_reply_to: Seq<char>,
}

impl View for ParsedHeaders {
    type V = HeaderFields;

    open spec fn view(&self) -> HeaderFields {
        HeaderFields {
            subject: self.subject@,
            from: self.from@,
            date: self.date@,
            in_reply_to: self.in_reply_to@,
        }
    }
}

/// No header field found yet.
pub open spec fn no_fields() -> HeaderFields {
    HeaderFields {
        subject: Seq::empty(),
        from: Seq::empty(),
        date: Seq::empty(),
        in_reply_to: Seq::empty(),
    }
}

/// `f` with the field called `name` (in any case) set to `val`; other names change nothing.
pub open spec fn assign_field(f: HeaderFields, name: Seq<char>, val: Seq<char>) -> HeaderFields {
    let n = lowercase(name);
    if n == "subject"@ {
        HeaderFields { subject: val, ..f }
    } else if n == "from"@ {
        HeaderFields { from: val, ..f }
    } else if n == "date"@ {
        HeaderFields { date: val, ..f }
    } else if n == "in-reply-to"@ {
        HeaderFields { in_reply_to: val, ..f }
    } else {
        f
    }
}

/// Where a header scan stands: the header being read, its value so far, the fields found.
pub struct HeaderScan {
    pub name: Seq<char>,
    pub value: Seq<char>,
    pub fields: HeaderFields,
}

/// The fields once the header being read (if any) is recorded with its value trimmed.
pub open spec fn flush(st: HeaderScan) -> HeaderFields {
    if st.name.len() > 0 {
        assign_field(st.fields, st.name, trim_seq(st.value))
    } else {
        st.fields
    }
}

/// One line of a header block: a line that starts with white space continues the value; any
/// other line records the header before it and starts a new one at its first `:` (or none).
pub open spec fn scan_step(st: HeaderScan, line: Seq<char>) -> HeaderScan {
    if line.len() > 0 && is_ws(line[0]) {
        HeaderScan { value: st.value + seq![' '] + trim_seq(line), ..st }
    } else {
        let fields = flush(st);
        match find_seq(line, ":"@) {
            Some(i) => HeaderScan {
                name: line.subrange(0, i),
                value: line.subrange(i + 1, line.len() as int),
                fields,
            },
            None => HeaderScan { name: Seq::empty(), value: Seq::empty(), fields },
        }
    }
}

/// The scan state after the given lines.
pub open spec fn scan_lines(lines: Seq<Seq<char>>) -> HeaderScan
    decreases lines.len(),
{
    if lines.len() == 0 {
        HeaderScan { name: Seq::empty(), value: Seq::empty(), fields: no_fields() }
    } else {
        scan_step(scan_lines(lines.drop_last()), lines.last())
    }
}

/// The subject, sender, date and in-reply-to fields of a header block, folded lines joined.
pub open spec fn header_fields(text: Seq<char>) -> HeaderFields {
    flush(scan_lines(lines_seq(text)))
}

/// A header block of one unfolded line `name: value` gives the field of that name the whole
/// value after the first colon, trimmed, whatever colons the value itself holds; the other
/// fields stay empty, and a name that is none of the four fields sets nothing.
pub proof fn law_single_header_line_keeps_whole_value(n: Seq<char>, v: Seq<char>)
    requires
        n.len() > 0,
        !is_ws(n[0]),
        forall|i: int| 0 <= i < n.len() ==> n[i] != ':' && n[i] != '\n',
        forall|i: int| 0 <= i < v.len() ==> v[i] != '\n',
    ensures
        ({
            let f = header_fields(n + ":"@ + v);
            let l = lowercase(n);
            &&& l == "subject"@ ==> f == HeaderFields { subject: trim_seq(v), ..no_fields() }
            &&& l == "from"@ ==> f == HeaderFields { from: trim_seq(v), ..no_fields() }
            &&& l == "date"@ ==> f == HeaderFields { date: trim_seq(v), ..no_fields() }
            &&& l == "in-reply-to"@ ==> f == HeaderFields { in_reply_to: trim_seq(v), ..no_fields() }
            &&& (l != "subject"@ && l != "from"@ && l != "date"@ && l != "in-reply-to"@) ==> f
                == no_fields()
        }),
{
    reveal_strlit(":");
    reveal_strlit("subject");
    reveal_strlit("from");
    reveal_strlit("date");
    reveal_strlit("in-reply-to");
    let text = n + ":"@ + v;
    let k = n.len() as int;
    assert(text[k] == ':');
    assert forall|j: int| 0 <= j < text.len() implies text[j] != '\n' by {
        if j < k {
            assert(text[j] == n[j]);
        } else if j > k {
            assert(text[j] == v[j - k - 1]);
        }
    }
    lemma_find_from(text, seq!['\n'], 0);
    match find_from(text, seq!['\n'], 0) {
        Some(i) => {
            assert(text.subrange(i, i + 1)[0] == text[i]);
        },
        None => {},
    }
    assert(lines_seq(text) == seq![text]) by {
        assert(text.subrange(0, text.len() as int) =~= text);
    }
    lemma_find_from(text, ":"@, 0);
    assert(occurs_at(text, ":"@, k)) by {
        assert(text.subrange(k, k + 1) =~= ":"@);
    }
    match find_from(text, ":"@, 0) {
        Some(i) => {
            if i < k {
                assert(text.subrange(i, i + 1)[0] == text[i]);
                assert(text[i] == n[i]);
            }
            assert(i == k);
        },
        None => {},
    }
    assert(find_seq(text, ":"@) == Some(k));
    assert(seq![text].drop_last() =~= Seq::<Seq<char>>::empty());
    assert(text[0] == n[0]);
    assert(text.subrange(0, k) =~= n);
    assert(text.subrange(k + 1, text.len() as int) =~= v);
    let s0 = scan_lines(Seq::<Seq<char>>::empty());
    assert(s0.name.len() == 0);
    assert(flush(s0) == no_fields());
    assert(scan_lines(seq![text]) == scan_step(s0, text));
    assert(!is_ws(text[0]));
    let st = scan_lines(seq![text]);
    assert(st.name == n && st.value == v && st.fields == no_fields());
    assert(header_fields(text) == flush(st));
    assert("from"@ != "date"@) by {
        assert("from"@[0] != "date"@[0]);
    }
    assert("subject"@.len() == 7 && "from"@.len() == 4 && "in-reply-to"@.len() == 11);
    assert("date"@.len() == 4);
    let f = header_fields(text);
    assert(f == assign_field(no_fields(), n, trim_seq(v)));
}

} // verus!

verus! {

/// Whether the characters `v` spell out `s`.
pub fn eq_str(v: &[char], s: &str) -> (r: bool)
    ensures
        r == (v@ == s@),
{
    let t = chars_of(s);
    if v.len() != t.len() {
        return false;
    }
    let mut i: usize = 0;
    while i < v.len()
        invariant
            t@ == s@,
            v@.len() == t@.len(),
            i <= v@.len(),
            forall|j: int| 0 <= j < i ==> v@[j] == t@[j],
        decreases v.len() - i,
    {
        if v[i] != t[i] {
            assert(v@[i as int] != t@[i as int]);
            return false;
        }
        i = i + 1;
    }
    assert(v@ == t@);
    true
}

/// The fields being filled while a header block is read.
struct FieldBufs {
    subject: Vec<char>,
    from: Vec<char>,
    date: Vec<char>,
    in_reply_to: Vec<char>,
}

impl FieldBufs {
    spec fn fields(&self) -> HeaderFields {
        HeaderFields {
            subject: self.subject@,
            from: self.from@,
            date: self.date@,
            in_reply_to: self.in_reply_to@,
        }
    }

    fn record(&mut self, name: &[char], val: Vec<char>)
        ensures
            final(self).fields() == assign_field(old(self).fields(), name@, val@),
    {
        let n = lower_chars(name);
        if eq_str(n.as_slice(), "subject") {
            self.subject = val;
        } else if eq_str(n.as_slice(), "from") {
            self.from = val;
        } else if eq_str(n.as_slice(), "date") {
            self.date = val;
        } else if eq_str(n.as_slice(), "in-reply-to") {
            self.in_reply_to = val;
        }
    }

    fn into_headers(self) -> (r: ParsedHeaders)
        ensures
            r@ == self.fields(),
    {
        ParsedHeaders {
            subject: string_of(self.subject.as_slice()),
            from: string_of(self.from.as_slice()),
            date: string_of(self.date.as_slice()),
            in_reply_to: string_of(self.in_reply_to.as_slice()),
        }
    }
}

/// Records the header being read, if any, with its value trimmed.
fn flush_exec(bufs: &mut FieldBufs, name: &Vec<char>, value: &Vec<char>)
    ensures
        final(bufs).fields() == flush(
            HeaderScan { name: name@, value: value@, fields: old(bufs).fields() },
        ),
{
    if name.len() > 0 {
        let v = trim_chars(value.as_slice());
        bufs.record(name.as_slice(), v);
    }
}

/// Reads the subject, sender, date and in-reply-to fields of a header block given as
/// characters; a line that starts with white space continues the field before it.
pub fn parse_header_chars(text: &[char]) -> (r: ParsedHeaders)
    ensures
        r@ == header_fields(text@),
{
    let lines = lines_of(text);
    let ghost ls = views(lines@);
    let mut bufs = FieldBufs {
        subject: Vec::new(),
        from: Vec::new(),
        date: Vec::new(),
        in_reply_to: Vec::new(),
    };
    let mut name: Vec<char> = Vec::new();
    let mut value: Vec<char> = Vec::new();
    let mut i: usize = 0;
    assert(ls.take(0) == Seq::<Seq<char>>::empty());
    while i < lines.len()
        invariant
            ls == views(lines@),
            ls == lines_seq(text@),
            i <= lines@.len(),
            (HeaderScan { name: name@, value: value@, fields: bufs.fields() }) == scan_lines(
                ls.take(i as int),
            ),
        decreases lines.len() - i,
    {
        let line = &lines[i];
        assert(ls.take(i + 1).drop_last() == ls.take(i as int));
        assert(ls.take(i + 1).last() == line@);
        if line.len() > 0 && is_ws_exec(line[0]) {
            let ghost old_v = value@;
            value.push(' ');
            let t = trim_chars(line.as_slice());
            append_all(&mut value, t.as_slice());
            assert(value@ == old_v + seq![' '] + t@);
        } else {
            flush_exec(&mut bufs, &name, &value);
            proof {
                reveal_strlit(":");
                crate::text::lemma_find_from(line@, ":"@, 0);
            }
            match find_str(line.as_slice(), ":") {
                Some(k) => {
                    name = crate::text::copy_range(line.as_slice(), 0, k);
                    value = crate::text::copy_range(line.as_slice(), k + 1, line.len());
                },
                None => {
                    name = Vec::new();
                    value = Vec::new();
                },
            }
        }
        i = i + 1;
    }
    assert(ls.take(lines@.len() as int) == ls);
    flush_exec(&mut bufs, &name, &value);
    bufs.into_headers()
}

/// Reads the subject, sender, date and in-reply-to fields from raw RFC 822 header bytes,
/// decoded as UTF-8 with invalid sequences replaced.
pub fn parse_email_headers(raw: &[u8]) -> (r: ParsedHeaders)
    ensures
        r@ == header_fields(utf8_lossy(raw@)),
{
    let text = decode_utf8_lossy(raw);
    let cs = chars_of(text.as_str());
    parse_header_chars(cs.as_slice())
}

} // verus!

verus! {

/// The IMAP UID in a raw FETCH response: the run of digits after the first `UID `, read as a
/// `u32` (none when the marker is missing, no digit follows, or the number does not fit).
pub open spec fn imap_uid(r: Seq<char>) -> Option<u32> {
    match find_seq(r, "UID "@) {
        None => None,
        Some(p) => match parse_digits(
            r.subrange(p + 4, digit_run_end(r, p + 4)),
            u32::MAX as nat,
        ) {
            Some(v) => Some(v as u32),
            None => None,
        },
    }
}

/// Reads the UID from a raw IMAP FETCH response such as
/// `* 10627 FETCH (UID 85803 RFC822.HEADER {12513}`.
pub fn parse_imap_uid(response: &str) -> (r: Option<u32>)
    ensures
        r == imap_uid(response@),
{
    let s = chars_of(response);
    let n = s.len();
    proof {
        reveal_strlit("UID ");
        lemma_find_from(s@, "UID "@, 0);
    }
    match find_str(s.as_slice(), "UID ") {
        None => None,
        Some(p) => {
            let end = digit_run_end_exec(s.as_slice(), p + 4);
            let d = copy_range(s.as_slice(), p + 4, end);
            match parse_digits_exec(d.as_slice(), u32::MAX as u64) {
                Some(v) => Some(v as u32),
                None => None,
            }
        },
    }
}

/// The first `c` at or after an occurrence of `label` that does not hold `c` lies past it.
pub proof fn lemma_char_after_label(r: Seq<char>, label: Seq<char>, p: int, c: char)
    requires
        occurs_at(r, label, p),
        !label.contains(c),
    ensures
        match find_from(r, seq![c], p) {
            Some(e) => p + label.len() <= e < r.len() && r[e] == c,
            None => true,
        },
{
    lemma_find_from(r, seq![c], p);
    if let Some(e) = find_from(r, seq![c], p) {
        assert(r.subrange(e, e + 1)[0] == r[e]);
        if e < p + label.len() {
            assert(r.subrange(p, p + label.len())[e - p] == r[e]);
            assert(label[e - p] == c);
        }
    }
}

/// The text of the first IMAP literal in a response: what follows the first `{` and the
/// `}\r\n` after it.
pub open spec fn literal_text(r: Seq<char>) -> Option<Seq<char>> {
    match find_seq(r, "{"@) {
        None => None,
        Some(ls) => match find_from(r, "}\r\n"@, ls) {
            None => None,
            Some(e) => Some(r.subrange(e + 3, r.len() as int)),
        },
    }
}

/// What follows the first `label` up to the next carriage return, if both are found.
pub open spec fn line_value_after(r: Seq<char>, label: Seq<char>) -> Option<Seq<char>> {
    match find_seq(r, label) {
        None => None,
        Some(p) => match find_from(r, "\r"@, p) {
            None => None,
            Some(e) => Some(r.subrange(p + label.len(), e)),
        },
    }
}

/// `cur`, or when it is empty the value that follows `label` in `r`.
pub open spec fn fallback_value(cur: Seq<char>, r: Seq<char>, label: Seq<char>) -> Seq<char> {
    if cur.len() == 0 {
        match line_value_after(r, label) {
            Some(v) => v,
            None => cur,
        }
    } else {
        cur
    }
}

/// The header fields of a raw FETCH response: those of its literal, with the subject, sender
/// and date looked up in the whole response where the literal gave none.
pub open spec fn fetch_header_fields(r: Seq<char>) -> HeaderFields {
    let base = match literal_text(r) {
        Some(t) => header_fields(t),
        None => no_fields(),
    };
    HeaderFields {
        subject: fallback_value(base.subject, r, "Subject: "@),
        from: fallback_value(base.from, r, "From: "@),
        date: fallback_value(base.date, r, "Date: "@),
        in_reply_to: base.in_reply_to,
    }
}

/// What follows `label` up to the next carriage return, for a label without one.
fn line_value_after_exec(r: &[char], label: &str) -> (v: Option<Vec<char>>)
    requires
        !label@.contains('\r'),
    ensures
        match v {
            Some(x) => line_value_after(r@, label@) == Some(x@),
            None => line_value_after(r@, label@) is None,
        },
{
    proof {
        reveal_strlit("\r");
        assert("\r"@ == seq!['\r']);
        lemma_find_from(r@, label@, 0);
    }
    match find_str(r, label) {
        None => None,
        Some(p) => {
            proof {
                lemma_char_after_label(r@, label@, p as int, '\r');
            }
            let cr = ['\r'];
            assert(cr@ == seq!['\r']);
            match crate::text::find_from_exec(r, cr.as_slice(), p) {
                None => None,
                Some(e) => {
                    let l = chars_of(label);
                    Some(copy_range(r, p + l.len(), e))
                },
            }
        },
    }
}

/// `cur`, or when it is empty the value that follows `label` in `r`.
fn fallback_exec(cur: Vec<char>, r: &[char], label: &str) -> (v: Vec<char>)
    requires
        !label@.contains('\r'),
    ensures
        v@ == fallback_value(cur@, r@, label@),
{
    if cur.len() == 0 {
        match line_value_after_exec(r, label) {
            Some(x) => x,
            None => cur,
        }
    } else {
        cur
    }
}

/// Reads the subject, sender, date and in-reply-to fields from a raw IMAP FETCH response:
/// the header block is the literal after `{size}\r\n`; the subject, sender and date fall back
/// to a `Subject: `, `From: ` or `Date: ` line anywhere in the response.
pub fn parse_imap_fetch_headers(response: &str) -> (r: ParsedHeaders)
    ensures
        r@ == fetch_header_fields(response@),
{
    let s = chars_of(response);
    let n = s.len();
    proof {
        reveal_strlit("{");
        reveal_strlit("}\r\n");
        lemma_find_from(s@, "{"@, 0);
    }
    let base = match find_str(s.as_slice(), "{") {
        None => None,
        Some(ls) => {
            let close = chars_of("}\r\n");
            proof {
                lemma_find_from(s@, "}\r\n"@, ls as int);
            }
            match crate::text::find_from_exec(s.as_slice(), close.as_slice(), ls) {
                None => None,
                Some(e) => {
                    let t = copy_range(s.as_slice(), e + 3, s.len());
                    Some(parse_header_chars(t.as_slice()))
                },
            }
        },
    };
    let (subject, from, date, in_reply_to) = match base {
        Some(h) => (chars_of(h.subject.as_str()), chars_of(h.from.as_str()), chars_of(h.date.as_str()), chars_of(h.in_reply_to.as_str())),
        None => (Vec::new(), Vec::new(), Vec::new(), Vec::new()),
    };
    proof {
        reveal_strlit("Subject: ");
        reveal_strlit("From: ");
        reveal_strlit("Date: ");
        assert(!"Subject: "@.contains('\r'));
        assert(!"From: "@.contains('\r'));
        assert(!"Date: "@.contains('\r'));
    }
    let subject = fallback_exec(subject, s.as_slice(), "Subject: ");
    let from = fallback_exec(from, s.as_slice(), "From: ");
    let date = fallback_exec(date, s.as_slice(), "Date: ");
    ParsedHeaders {
        subject: string_of(subject.as_slice()),
        from: string_of(from.as_slice()),
        date: string_of(date.as_slice()),
        in_reply_to: string_of(in_reply_to.as_slice()),
    }
}

} // verus!

verus! {

/// The value of a hexadecimal digit (`char::to_digit(16)`).
pub open spec fn hex_val(c: char) -> Option<nat> {
    if '0' <= c <= '9' {
        Some((c as u32 - '0' as u32) as nat)
    } else if 'a' <= c <= 'f' {
        Some((c as u32 - 'a' as u32 + 10) as nat)
    } else if 'A' <= c <= 'F' {
        Some((c as u32 - 'A' as u32 + 10) as nat)
    } else {
        None
    }
}

/// The value of a hexadecimal digit.
pub fn hex_val_exec(c: char) -> (r: Option<u8>)
    ensures
        match r {
            Some(v) => hex_val(c) == Some(v as nat),
            None => hex_val(c) is None,
        },
{
    if '0' <= c && c <= '9' {
        Some((c as u32 - '0' as u32) as u8)
    } else if 'a' <= c && c <= 'f' {
        Some((c as u32 - 'a' as u32 + 10) as u8)
    } else if 'A' <= c && c <= 'F' {
        Some((c as u32 - 'A' as u32 + 10) as u8)
    } else {
        None
    }
}

/// One piece of quoted-printable decoding: a character taken as it stands, or a byte written
/// as `=XX`.
pub enum QpPiece {
    Literal(char),
    Encoded(u8),
}

/// A character taken as it stands.
pub open spec fn lit(c: char) -> QpPiece {
    QpPiece::Literal(c)
}

/// A byte written as `=XX`.
pub open spec fn enc(b: u8) -> QpPiece {
    QpPiece::Encoded(b)
}

/// Where a soft line break that starts at `j` (just after the `=`) ends: a `'\r'` then a `'\n'`
/// are skipped, each only if present.
pub open spec fn soft_break_end(s: Seq<char>, j: int) -> int {
    let j2 = if s[j] == '\r' {
        j + 1
    } else {
        j
    };
    if j2 < s.len() && s[j2] == '\n' {
        j2 + 1
    } else {
        j2
    }
}

/// Quoted-printable decoding of `s[i..]` as a sequence of pieces. An `=` before a line break is
/// a soft break and vanishes; `=` and two hexadecimal digits is a byte; an `=` followed by
/// anything else is kept together with the (at most two) characters after it.
pub open spec fn qp_pieces_from(s: Seq<char>, i: int) -> Seq<QpPiece>
    decreases s.len() - i,
{
    if i < 0 || i >= s.len() {
        seq![]
    } else if s[i] != '=' {
        seq![lit(s[i])] + qp_pieces_from(s, i + 1)
    } else if i + 1 < s.len() && (s[i + 1] == '\r' || s[i + 1] == '\n') {
        qp_pieces_from(s, soft_break_end(s, i + 1))
    } else if i + 2 < s.len() && hex_val(s[i + 1]) is Some && hex_val(s[i + 2]) is Some {
        seq![
            enc(
                (hex_val(s[i + 1]).unwrap() * 16 + hex_val(s[i + 2]).unwrap()) as u8,
            ),
        ] + qp_pieces_from(s, i + 3)
    } else if i + 2 < s.len() {
        seq![lit('='), lit(s[i + 1]), lit(s[i + 2])]
            + qp_pieces_from(s, i + 3)
    } else if i + 1 < s.len() {
        seq![lit('='), lit(s[i + 1])]
    } else {
        seq![lit('=')]
    }
}

/// The low byte of a character's code point (what `char as u8` keeps).
pub open spec fn low_byte(c: char) -> u8 {
    (c as u32 % 256) as u8
}

/// A piece as text: a byte stands for the character with that code point.
pub open spec fn piece_char(p: QpPiece) -> char {
    match p {
        QpPiece::Literal(c) => c,
        QpPiece::Encoded(b) => (b as u32) as char,
    }
}

/// A piece as a byte: a character keeps its low byte.
pub open spec fn piece_byte(p: QpPiece) -> u8 {
    match p {
        QpPiece::Literal(c) => low_byte(c),
        QpPiece::Encoded(b) => b,
    }
}

/// Quoted-printable decoding of `s`, each byte taken as the character with that code point.
pub open spec fn qp_text(s: Seq<char>) -> Seq<char> {
    qp_pieces_from(s, 0).map_values(|p: QpPiece| piece_char(p))
}

/// Quoted-printable decoding of `s` to bytes, each character kept as its low byte.
pub open spec fn qp_bytes(s: Seq<char>) -> Seq<u8> {
    qp_pieces_from(s, 0).map_values(|p: QpPiece| piece_byte(p))
}

/// The pieces of quoted-printable decoding.
fn qp_pieces(s: &[char]) -> (r: Vec<QpPiece>)
    ensures
        r@ == qp_pieces_from(s@, 0),
{
    let n = s.len();
    let mut out: Vec<QpPiece> = Vec::new();
    let mut i: usize = 0;
    while i < n
        invariant
            n == s@.len(),
            i <= n,
            out@ + qp_pieces_from(s@, i as int) == qp_pieces_from(s@, 0),
        decreases n - i,
    {
        let ghost old_out = out@;
        let c = s[i];
        if c != '=' {
            out.push(QpPiece::Literal(c));
            assert(s@[i as int] != '=');
            assert(0 <= i < s@.len());
            assert(qp_pieces_from(s@, i as int) == seq![QpPiece::Literal(c)] + qp_pieces_from(
                s@,
                i + 1,
            ));
            assert(out@ + qp_pieces_from(s@, i + 1) =~= old_out + qp_pieces_from(s@, i as int));
            i = i + 1;
        } else if i + 1 < n && (s[i + 1] == '\r' || s[i + 1] == '\n') {
            let mut j = i + 1;
            if s[j] == '\r' {
                j = j + 1;
            }
            if j < n && s[j] == '\n' {
                j = j + 1;
            }
            assert(j == soft_break_end(s@, i + 1));
            i = j;
        } else {
            let h1 = if n - i > 1 {
                Some(s[i + 1])
            } else {
                None
            };
            let h2 = if n - i > 2 {
                Some(s[i + 2])
            } else {
                None
            };
            let mut done = false;
            if let (Some(a), Some(b)) = (h1, h2) {
                if let (Some(d1), Some(d2)) = (hex_val_exec(a), hex_val_exec(b)) {
                    let v: u8 = d1 * 16 + d2;
                    out.push(QpPiece::Encoded(v));
                    assert(qp_pieces_from(s@, i as int) == seq![QpPiece::Encoded(v)]
                        + qp_pieces_from(s@, i + 3));
                    assert(out@ + qp_pieces_from(s@, i + 3) =~= old_out + qp_pieces_from(
                        s@,
                        i as int,
                    ));
                    i = i + 3;
                    done = true;
                }
            }
            if !done {
                out.push(QpPiece::Literal('='));
                if let Some(a) = h1 {
                    out.push(QpPiece::Literal(a));
                }
                if let Some(b) = h2 {
                    out.push(QpPiece::Literal(b));
                }
                if n - i > 2 {
                    assert(qp_pieces_from(s@, i as int) == seq![
                        QpPiece::Literal('='),
                        QpPiece::Literal(s@[i + 1]),
                        QpPiece::Literal(s@[i + 2]),
                    ] + qp_pieces_from(s@, i + 3));
                    assert(out@ + qp_pieces_from(s@, i + 3) =~= old_out + qp_pieces_from(
                        s@,
                        i as int,
                    ));
                    i = i + 3;
                } else {
                    assert(qp_pieces_from(s@, n as int) == Seq::<QpPiece>::empty());
                    if i + 1 < n {
                        assert(qp_pieces_from(s@, i as int) == seq![
                            QpPiece::Literal('='),
                            QpPiece::Literal(s@[i + 1]),
                        ]);
                    } else {
                        assert(qp_pieces_from(s@, i as int) == seq![QpPiece::Literal('=')]);
                    }
                    assert(out@ + qp_pieces_from(s@, n as int) =~= old_out + qp_pieces_from(
                        s@,
                        i as int,
                    ));
                    i = n;
                }
            }
        }
    }
    assert(qp_pieces_from(s@, n as int) == Seq::<QpPiece>::empty());
    assert(out@ + Seq::<QpPiece>::empty() == out@);
    out
}

/// Decodes quoted-printable text to bytes; characters outside an `=XX` keep their low byte.
pub fn decode_quoted_printable_to_bytes(input: &str) -> (r: Vec<u8>)
    ensures
        r@ == qp_bytes(input@),
{
    let s = chars_of(input);
    let p = qp_pieces(s.as_slice());
    let mut out: Vec<u8> = Vec::new();
    let mut i: usize = 0;
    while i < p.len()
        invariant
            i <= p@.len(),
            out@ == p@.take(i as int).map_values(|q: QpPiece| piece_byte(q)),
        decreases p.len() - i,
    {
        let b = match p[i] {
            QpPiece::Literal(c) => (c as u32 % 256) as u8,
            QpPiece::Encoded(x) => x,
        };
        out.push(b);
        assert(p@.take(i + 1) == p@.take(i as int).push(p@[i as int]));
        i = i + 1;
    }
    assert(p@.take(p@.len() as int) == p@);
    out
}

/// Decodes quoted-printable text; each `=XX` byte becomes the character with that code point.
pub fn decode_quoted_printable(input: &str) -> (r: String)
    ensures
        r@ == qp_text(input@),
{
    let s = chars_of(input);
    let p = qp_pieces(s.as_slice());
    let mut out: Vec<char> = Vec::new();
    let mut i: usize = 0;
    while i < p.len()
        invariant
            i <= p@.len(),
            out@ == p@.take(i as int).map_values(|q: QpPiece| piece_char(q)),
        decreases p.len() - i,
    {
        let c = match p[i] {
            QpPiece::Literal(c) => c,
            QpPiece::Encoded(x) => x as char,
        };
        out.push(c);
        assert(p@.take(i + 1) == p@.take(i as int).push(p@[i as int]));
        i = i + 1;
    }
    assert(p@.take(p@.len() as int) == p@);
    string_of(out.as_slice())
}

/// The two quoted-printable decoders agree wherever every character is below 256: the text one
/// gives the characters whose code points are the bytes the byte one gives.
pub proof fn law_quoted_printable_text_matches_bytes(s: Seq<char>)
    requires
        forall|i: int| 0 <= i < s.len() ==> (#[trigger] s[i] as u32) < 256,
    ensures
        qp_text(s) == qp_bytes(s).map_values(|b: u8| (b as u32) as char),
{
    lemma_qp_pieces_chars_below(s, 0);
    let ps = qp_pieces_from(s, 0);
    assert(chars_below(ps));
    assert forall|k: int| 0 <= k < ps.len() implies #[trigger] piece_char(ps[k]) == ((piece_byte(
        ps[k],
    ) as u32) as char) by {
        match ps[k] {
            QpPiece::Literal(c) => {
                assert((c as u32) < 256);
                assert(((low_byte(c) as u32) as char) == c) by {
                    assert((c as u32) % 256 == c as u32);
                }
            },
            QpPiece::Encoded(b) => {},
        }
    }
    assert(qp_text(s) =~= qp_bytes(s).map_values(|b: u8| (b as u32) as char));
}

/// The upper-case hexadecimal digit for `d < 16`.
pub open spec fn hex_digit_upper(d: nat) -> char {
    if d < 10 {
        ((d + 48) as u32) as char
    } else {
        ((d + 55) as u32) as char
    }
}

/// Every byte written as `=XX` with upper-case hexadecimal digits.
pub open spec fn qp_encoded(bytes: Seq<u8>) -> Seq<char>
    decreases bytes.len(),
{
    if bytes.len() == 0 {
        Seq::empty()
    } else {
        seq!['=', hex_digit_upper((bytes[0] / 16) as nat), hex_digit_upper((bytes[0] % 16) as nat)]
            + qp_encoded(bytes.drop_first())
    }
}

proof fn lemma_hex_digit_upper(d: nat)
    requires
        d < 16,
    ensures
        hex_val(hex_digit_upper(d)) == Some(d),
        hex_digit_upper(d) != '\r',
        hex_digit_upper(d) != '\n',
{
    let c = hex_digit_upper(d);
    if d < 10 {
        assert(c as u32 == d + 48);
    } else {
        assert(c as u32 == d + 55);
    }
}

/// Decoding from index `i + p.len()` of `p + t` is decoding `t` from `i`: what comes before
/// does not matter.
proof fn lemma_qp_pieces_shift(p: Seq<char>, t: Seq<char>, i: int)
    requires
        0 <= i,
    ensures
        qp_pieces_from(p + t, i + p.len()) == qp_pieces_from(t, i),
    decreases t.len() - i,
{
    let s = p + t;
    let j = i + p.len();
    assert forall|k: int| 0 <= k < t.len() implies s[k + p.len()] == t[k] by {}
    if i >= t.len() {
    } else if t[i] != '=' {
        assert(s[j] == t[i]);
        lemma_qp_pieces_shift(p, t, i + 1);
    } else if i + 1 < t.len() && (t[i + 1] == '\r' || t[i + 1] == '\n') {
        assert(s[j] == t[i]);
        assert(s[j + 1] == t[i + 1]);
        let e = soft_break_end(t, i + 1);
        if t[i + 1] == '\r' && i + 2 < t.len() {
            assert(s[j + 2] == t[i + 2]);
        }
        assert(soft_break_end(s, j + 1) == e + p.len());
        lemma_qp_pieces_shift(p, t, e);
    } else if i + 2 < t.len() && hex_val(t[i + 1]) is Some && hex_val(t[i + 2]) is Some {
        assert(s[j] == t[i]);
        assert(s[j + 1] == t[i + 1]);
        assert(s[j + 2] == t[i + 2]);
        lemma_qp_pieces_shift(p, t, i + 3);
    } else if i + 2 < t.len() {
        assert(s[j] == t[i]);
        assert(s[j + 1] == t[i + 1]);
        assert(s[j + 2] == t[i + 2]);
        lemma_qp_pieces_shift(p, t, i + 3);
    } else if i + 1 < t.len() {
        assert(s[j] == t[i]);
        assert(s[j + 1] == t[i + 1]);
    } else {
        assert(s[j] == t[i]);
    }
}

proof fn lemma_qp_encoded_pieces(bytes: Seq<u8>)
    ensures
        qp_pieces_from(qp_encoded(bytes), 0) == bytes.map_values(|b: u8| enc(b)),
    decreases bytes.len(),
{
    if bytes.len() == 0 {
        assert(bytes.map_values(|b: u8| enc(b)) =~= Seq::<QpPiece>::empty());
    } else {
        let b = bytes[0];
        let hi = (b / 16) as nat;
        let lo = (b % 16) as nat;
        lemma_hex_digit_upper(hi);
        lemma_hex_digit_upper(lo);
        let head = seq!['=', hex_digit_upper(hi), hex_digit_upper(lo)];
        let rest = qp_encoded(bytes.drop_first());
        let s = qp_encoded(bytes);
        assert(s == head + rest);
        assert(s[0] == '=');
        assert(s[1] == hex_digit_upper(hi));
        assert(s[2] == hex_digit_upper(lo));
        assert((hi * 16 + lo) as u8 == b) by (nonlinear_arith)
            requires
                hi == (b / 16) as nat,
                lo == (b % 16) as nat,
        ;
        lemma_qp_pieces_shift(head, rest, 0);
        lemma_qp_encoded_pieces(bytes.drop_first());
        assert(qp_pieces_from(s, 0) == seq![enc(b)] + qp_pieces_from(s, 3));
        assert(bytes.map_values(|b: u8| enc(b)) =~= seq![enc(b)] + bytes.drop_first().map_values(
            |b: u8| enc(b),
        ));
    }
}

/// Decoding `=XX` written for every byte gives the bytes back.
pub proof fn law_quoted_printable_decodes_encoded_bytes(bytes: Seq<u8>)
    ensures
        qp_bytes(qp_encoded(bytes)) == bytes,
{
    lemma_qp_encoded_pieces(bytes);
    assert(qp_bytes(qp_encoded(bytes)) =~= bytes);
}

/// Every character among `ps` is below 256.
spec fn chars_below(ps: Seq<QpPiece>) -> bool {
    forall|k: int|
        0 <= k < ps.len() ==> match #[trigger] ps[k] {
            QpPiece::Literal(c) => (c as u32) < 256,
            QpPiece::Encoded(_) => true,
        }
}

proof fn lemma_chars_below_concat(a: Seq<QpPiece>, b: Seq<QpPiece>)
    requires
        chars_below(a),
        chars_below(b),
    ensures
        chars_below(a + b),
{
    assert forall|k: int| 0 <= k < (a + b).len() implies match #[trigger] (a + b)[k] {
        QpPiece::Literal(c) => (c as u32) < 256,
        QpPiece::Encoded(_) => true,
    } by {
        if k < a.len() {
            assert((a + b)[k] == a[k]);
        } else {
            assert((a + b)[k] == b[k - a.len()]);
        }
    }
}

/// Every character that quoted-printable decoding keeps comes from the input.
proof fn lemma_qp_pieces_chars_below(s: Seq<char>, i: int)
    requires
        forall|j: int| 0 <= j < s.len() ==> (#[trigger] s[j] as u32) < 256,
    ensures
        chars_below(qp_pieces_from(s, i)),
    decreases s.len() - i,
{
    if i < 0 || i >= s.len() {
    } else if s[i] != '=' {
        lemma_qp_pieces_chars_below(s, i + 1);
        let c = s[i];
        let a = seq![lit(c)];
        assert(chars_below(a)) by {
            assert((c as u32) < 256);
            assert(a[0] == QpPiece::Literal(c));
        }
        lemma_chars_below_concat(a, qp_pieces_from(s, i + 1));
    } else if i + 1 < s.len() && (s[i + 1] == '\r' || s[i + 1] == '\n') {
        lemma_qp_pieces_chars_below(s, soft_break_end(s, i + 1));
    } else if i + 2 < s.len() && hex_val(s[i + 1]) is Some && hex_val(s[i + 2]) is Some {
        lemma_qp_pieces_chars_below(s, i + 3);
        let a = seq![
            QpPiece::Encoded((hex_val(s[i + 1]).unwrap() * 16 + hex_val(s[i + 2]).unwrap()) as u8),
        ];
        assert(chars_below(a));
        lemma_chars_below_concat(a, qp_pieces_from(s, i + 3));
    } else if i + 2 < s.len() {
        lemma_qp_pieces_chars_below(s, i + 3);
        let c1 = s[i + 1];
        let c2 = s[i + 2];
        let a = seq![lit('='), lit(c1), lit(c2)];
        assert(chars_below(a)) by {
            assert((c1 as u32) < 256);
            assert((c2 as u32) < 256);
            assert(a[1] == QpPiece::Literal(c1));
            assert(a[2] == QpPiece::Literal(c2));
        }
        lemma_chars_below_concat(a, qp_pieces_from(s, i + 3));
    } else if i + 1 < s.len() {
        let c1 = s[i + 1];
        let a = seq![lit('='), lit(c1)];
        assert(chars_below(a)) by {
            assert((c1 as u32) < 256);
            assert(a[1] == QpPiece::Literal(c1));
        }
    } else {
        assert(chars_below(seq![lit('=')]));
    }
}

} // verus!

verus! {

/// `s` with every white space character left out.
pub open spec fn drop_ws(s: Seq<char>) -> Seq<char>
    decreases s.len(),
{
    if s.len() == 0 {
        s
    } else if is_ws(s.last()) {
        drop_ws(s.drop_last())
    } else {
        drop_ws(s.drop_last()).push(s.last())
    }
}

/// What the `base64` crate's standard engine decodes from `input`, if it accepts it.
pub uninterp spec fn base64_decoded(input: Seq<u8>) -> Option<Seq<u8>>;

/// Calls `base64::engine::general_purpose::STANDARD.decode`. The contract names the result, a
/// function of the input bytes alone (`None` where the crate reports an error); what the crate
/// accepts and what it decodes to is left unstated.
#[verifier::external_body]
fn base64_decode_standard(input: &[u8]) -> (r: Option<Vec<u8>>)
    ensures
        match r {
            Some(v) => base64_decoded(input@) == Some(v@),
            None => base64_decoded(input@) is None,
        },
{
    base64::engine::general_purpose::STANDARD.decode(input).ok()
}

/// Base64 content as bytes: white space dropped before decoding; text that does not decode is
/// kept as its own UTF-8 bytes.
pub open spec fn base64_bytes(input: Seq<char>) -> Seq<u8> {
    match base64_decoded(vstd::utf8::encode_utf8(drop_ws(input))) {
        Some(v) => v,
        None => vstd::utf8::encode_utf8(input),
    }
}

/// `s` with white space left out.
fn drop_ws_chars(s: &[char]) -> (r: Vec<char>)
    ensures
        r@ == drop_ws(s@),
{
    let mut out: Vec<char> = Vec::new();
    let mut i: usize = 0;
    assert(s@.take(0) == Seq::<char>::empty());
    while i < s.len()
        invariant
            i <= s@.len(),
            out@ == drop_ws(s@.take(i as int)),
        decreases s.len() - i,
    {
        assert(s@.take(i + 1).drop_last() == s@.take(i as int));
        if !is_ws_exec(s[i]) {
            out.push(s[i]);
        }
        i = i + 1;
    }
    assert(s@.take(s@.len() as int) == s@);
    out
}

/// Decodes base64 content to bytes, ignoring white space; content that is not base64 comes
/// back as its own bytes.
pub fn decode_base64_to_bytes(input: &str) -> (r: Vec<u8>)
    ensures
        r@ == base64_bytes(input@),
{
    let s = chars_of(input);
    let clean = drop_ws_chars(s.as_slice());
    let clean_bytes = utf8_bytes(clean.as_slice());
    match base64_decode_standard(clean_bytes.as_slice()) {
        Some(v) => v,
        None => utf8_bytes(s.as_slice()),
    }
}

/// Decodes base64 content and reads the bytes as UTF-8, invalid sequences replaced.
pub fn decode_base64(input: &str) -> (r: String)
    ensures
        r@ == utf8_lossy(base64_bytes(input@)),
{
    let b = decode_base64_to_bytes(input);
    decode_utf8_lossy(b.as_slice())
}

/// The character for a byte in ISO-8859-1: the code point with the byte's value.
pub open spec fn latin1_char(b: u8) -> char {
    (b as u32) as char
}

/// The character for a byte in ISO-8859-15.
pub open spec fn latin9_char(b: u8) -> char {
    if b == 0xA4 {
        '\u{20AC}'
    } else if b == 0xA6 {
        '\u{0160}'
    } else if b == 0xA8 {
        '\u{0161}'
    } else if b == 0xB4 {
        '\u{017D}'
    } else if b == 0xB8 {
        '\u{017E}'
    } else if b == 0xBC {
        '\u{0152}'
    } else if b == 0xBD {
        '\u{0153}'
    } else if b == 0xBE {
        '\u{0178}'
    } else {
        latin1_char(b)
    }
}

/// The character for a byte in Windows-1252 (bytes that code page leaves unassigned keep their
/// ISO-8859-1 character).
pub open spec fn cp1252_char(b: u8) -> char {
    if 0x80 <= b <= 0x9F {
        match b {
            0x80 => '\u{20AC}',
            0x82 => '\u{201A}',
            0x83 => '\u{0192}',
            0x84 => '\u{201E}',
            0x85 => '\u{2026}',
            0x86 => '\u{2020}',
            0x87 => '\u{2021}',
            0x88 => '\u{02C6}',
            0x89 => '\u{2030}',
            0x8A => '\u{0160}',
            0x8B => '\u{2039}',
            0x8C => '\u{0152}',
            0x8E => '\u{017D}',
            0x91 => '\u{2018}',
            0x92 => '\u{2019}',
            0x93 => '\u{201C}',
            0x94 => '\u{201D}',
            0x95 => '\u{2022}',
            0x96 => '\u{2013}',
            0x97 => '\u{2014}',
            0x98 => '\u{02DC}',
            0x99 => '\u{2122}',
            0x9A => '\u{0161}',
            0x9B => '\u{203A}',
            0x9C => '\u{0153}',
            0x9E => '\u{017E}',
            0x9F => '\u{0178}',
            _ => latin1_char(b),
        }
    } else {
        latin1_char(b)
    }
}

/// The text that `bytes` encode in the character set named `charset` (in any case): UTF-8 for
/// `utf-8`/`utf8` and for names not known here, invalid sequences replaced; ISO-8859-1,
/// ISO-8859-15 and Windows-1252 byte by byte.
pub open spec fn charset_text(bytes: Seq<u8>, charset: Seq<char>) -> Seq<char> {
    let label = lowercase(charset);
    if label == "utf-8"@ || label == "utf8"@ {
        utf8_lossy(bytes)
    } else if label == "iso-8859-1"@ || label == "latin1"@ || label == "iso8859-1"@ {
        bytes.map_values(|b: u8| latin1_char(b))
    } else if label == "iso-8859-15"@ || label == "latin9"@ {
        bytes.map_values(|b: u8| latin9_char(b))
    } else if label == "windows-1252"@ || label == "cp1252"@ || label == "windows1252"@ {
        bytes.map_values(|b: u8| cp1252_char(b))
    } else {
        utf8_lossy(bytes)
    }
}

fn latin9_char_exec(b: u8) -> (c: char)
    ensures
        c == latin9_char(b),
{
    if b == 0xA4 {
        '\u{20AC}'
    } else if b == 0xA6 {
        '\u{0160}'
    } else if b == 0xA8 {
        '\u{0161}'
    } else if b == 0xB4 {
        '\u{017D}'
    } else if b == 0xB8 {
        '\u{017E}'
    } else if b == 0xBC {
        '\u{0152}'
    } else if b == 0xBD {
        '\u{0153}'
    } else if b == 0xBE {
        '\u{0178}'
    } else {
        b as char
    }
}

fn cp1252_char_exec(b: u8) -> (c: char)
    ensures
        c == cp1252_char(b),
{
    if 0x80 <= b && b <= 0x9F {
        match b {
            0x80 => '\u{20AC}',
            0x82 => '\u{201A}',
            0x83 => '\u{0192}',
            0x84 => '\u{201E}',
            0x85 => '\u{2026}',
            0x86 => '\u{2020}',
            0x87 => '\u{2021}',
            0x88 => '\u{02C6}',
            0x89 => '\u{2030}',
            0x8A => '\u{0160}',
            0x8B => '\u{2039}',
            0x8C => '\u{0152}',
            0x8E => '\u{017D}',
            0x91 => '\u{2018}',
            0x92 => '\u{2019}',
            0x93 => '\u{201C}',
            0x94 => '\u{201D}',
            0x95 => '\u{2022}',
            0x96 => '\u{2013}',
            0x97 => '\u{2014}',
            0x98 => '\u{02DC}',
            0x99 => '\u{2122}',
            0x9A => '\u{0161}',
            0x9B => '\u{203A}',
            0x9C => '\u{0153}',
            0x9E => '\u{017E}',
            0x9F => '\u{0178}',
            _ => b as char,
        }
    } else {
        b as char
    }
}

/// Which single-byte table to read bytes with.
enum ByteTable {
    Latin1,
    Latin9,
    Cp1252,
}

spec fn table_char(t: ByteTable, b: u8) -> char {
    match t {
        ByteTable::Latin1 => latin1_char(b),
        ByteTable::Latin9 => latin9_char(b),
        ByteTable::Cp1252 => cp1252_char(b),
    }
}

/// Reads each byte as one character of the given table.
fn map_bytes(bytes: &[u8], t: ByteTable) -> (r: String)
    ensures
        r@ == bytes@.map_values(|b: u8| table_char(t, b)),
{
    let mut out: Vec<char> = Vec::new();
    let mut i: usize = 0;
    while i < bytes.len()
        invariant
            i <= bytes@.len(),
            out@ == bytes@.take(i as int).map_values(|b: u8| table_char(t, b)),
        decreases bytes.len() - i,
    {
        let b = bytes[i];
        let c = match t {
            ByteTable::Latin1 => b as char,
            ByteTable::Latin9 => latin9_char_exec(b),
            ByteTable::Cp1252 => cp1252_char_exec(b),
        };
        out.push(c);
        assert(bytes@.take(i + 1) == bytes@.take(i as int).push(b));
        i = i + 1;
    }
    assert(bytes@.take(bytes@.len() as int) == bytes@);
    string_of(out.as_slice())
}

/// Every byte is ASCII (below 0x80).
pub open spec fn all_ascii_bytes(bytes: Seq<u8>) -> bool {
    forall|i: int| 0 <= i < bytes.len() ==> bytes[i] < 0x80
}

/// ASCII bytes are valid UTF-8 and decode to one character per byte, of the byte's value.
proof fn lemma_ascii_utf8(bytes: Seq<u8>)
    requires
        all_ascii_bytes(bytes),
    ensures
        vstd::utf8::valid_utf8(bytes),
        vstd::utf8::decode_utf8(bytes) == bytes.map_values(|b: u8| latin1_char(b)),
    decreases bytes.len(),
{
    if bytes.len() > 0 {
        let b = bytes[0];
        let rest = bytes.subrange(1, bytes.len() as int);
        assert(b < 0x80);
        assert((b & 0x7f) as u32 == b as u32) by (bit_vector)
            requires
                b < 0x80,
        ;
        assert(vstd::utf8::valid_first_scalar(bytes));
        assert(vstd::utf8::pop_first_scalar(bytes) == rest);
        assert(all_ascii_bytes(rest)) by {
            assert forall|i: int| 0 <= i < rest.len() implies rest[i] < 0x80 by {
                assert(rest[i] == bytes[i + 1]);
            }
        }
        lemma_ascii_utf8(rest);
        assert(vstd::utf8::decode_utf8(bytes) =~= bytes.map_values(|b: u8| latin1_char(b)));
    } else {
        assert(vstd::utf8::decode_utf8(bytes) =~= bytes.map_values(|b: u8| latin1_char(b)));
    }
}

/// Decodes bytes to text in the character set named by `charset`. Every label, known or not,
/// reads ASCII bytes the same way: one character per byte, of the byte's value.
pub fn charset_decode(bytes: &[u8], charset: &str) -> (r: String)
    ensures
        r@ == charset_text(bytes@, charset@),
        all_ascii_bytes(bytes@) ==> r@ == bytes@.map_values(|b: u8| latin1_char(b)),
{
    proof {
        if all_ascii_bytes(bytes@) {
            lemma_ascii_utf8(bytes@);
            assert(bytes@.map_values(|b: u8| latin9_char(b)) =~= bytes@.map_values(
                |b: u8| latin1_char(b),
            ));
            assert(bytes@.map_values(|b: u8| cp1252_char(b)) =~= bytes@.map_values(
                |b: u8| latin1_char(b),
            ));
        }
    }
    let cs = chars_of(charset);
    let label = lower_chars(cs.as_slice());
    let l = label.as_slice();
    if eq_str(l, "utf-8") || eq_str(l, "utf8") {
        decode_utf8_lossy(bytes)
    } else if eq_str(l, "iso-8859-1") || eq_str(l, "latin1") || eq_str(l, "iso8859-1") {
        let r = map_bytes(bytes, ByteTable::Latin1);
        assert(r@ =~= bytes@.map_values(|b: u8| latin1_char(b)));
        r
    } else if eq_str(l, "iso-8859-15") || eq_str(l, "latin9") {
        let r = map_bytes(bytes, ByteTable::Latin9);
        assert(r@ =~= bytes@.map_values(|b: u8| latin9_char(b)));
        r
    } else if eq_str(l, "windows-1252") || eq_str(l, "cp1252") || eq_str(l, "windows1252") {
        let r = map_bytes(bytes, ByteTable::Cp1252);
        assert(r@ =~= bytes@.map_values(|b: u8| cp1252_char(b)));
        r
    } else {
        decode_utf8_lossy(bytes)
    }
}

/// Under a Windows-1252 label, every byte is read through the Windows-1252 code page: the bytes
/// 0x80 to 0x9F give the euro sign, the typographic quotes and dashes, the ellipsis and the other
/// characters of that page (the five it leaves unassigned keep their value), and every other
/// byte is the character of the same value.
pub proof fn law_windows_1252_reads_the_code_page(bytes: Seq<u8>, label: Seq<char>)
    requires
        lowercase(label) == "windows-1252"@ || lowercase(label) == "cp1252"@ || lowercase(label)
            == "windows1252"@,
    ensures
        charset_text(bytes, label).len() == bytes.len(),
        forall|i: int|
            #![trigger charset_text(bytes, label)[i]]
            0 <= i < bytes.len() ==> {
                let b = bytes[i];
                let c = charset_text(bytes, label)[i];
                &&& (b == 0x80 ==> c == '\u{20AC}')
                &&& (b == 0x82 ==> c == '\u{201A}')
                &&& (b == 0x83 ==> c == '\u{0192}')
                &&& (b == 0x84 ==> c == '\u{201E}')
                &&& (b == 0x85 ==> c == '\u{2026}')
                &&& (b == 0x86 ==> c == '\u{2020}')
                &&& (b == 0x87 ==> c == '\u{2021}')
                &&& (b == 0x88 ==> c == '\u{02C6}')
                &&& (b == 0x89 ==> c == '\u{2030}')
                &&& (b == 0x8A ==> c == '\u{0160}')
                &&& (b == 0x8B ==> c == '\u{2039}')
                &&& (b == 0x8C ==> c == '\u{0152}')
                &&& (b == 0x8E ==> c == '\u{017D}')
                &&& (b == 0x91 ==> c == '\u{2018}')
                &&& (b == 0x92 ==> c == '\u{2019}')
                &&& (b == 0x93 ==> c == '\u{201C}')
                &&& (b == 0x94 ==> c == '\u{201D}')
                &&& (b == 0x95 ==> c == '\u{2022}')
                &&& (b == 0x96 ==> c == '\u{2013}')
                &&& (b == 0x97 ==> c == '\u{2014}')
                &&& (b == 0x98 ==> c == '\u{02DC}')
                &&& (b == 0x99 ==> c == '\u{2122}')
                &&& (b == 0x9A ==> c == '\u{0161}')
                &&& (b == 0x9B ==> c == '\u{203A}')
                &&& (b == 0x9C ==> c == '\u{0153}')
                &&& (b == 0x9E ==> c == '\u{017E}')
                &&& (b == 0x9F ==> c == '\u{0178}')
                &&& ((b < 0x80 || b > 0x9F || b == 0x81 || b == 0x8D || b == 0x8F || b == 0x90
                    || b == 0x9D) ==> c == (b as u32) as char)
            },
{
    reveal_strlit("utf-8");
    reveal_strlit("utf8");
    reveal_strlit("iso-8859-1");
    reveal_strlit("latin1");
    reveal_strlit("iso8859-1");
    reveal_strlit("iso-8859-15");
    reveal_strlit("latin9");
    reveal_strlit("windows-1252");
    reveal_strlit("cp1252");
    reveal_strlit("windows1252");
    let l = lowercase(label);
    assert("utf-8"@.len() == 5 && "utf8"@.len() == 4 && "iso-8859-1"@.len() == 10);
    assert("iso8859-1"@.len() == 9 && "latin1"@.len() == 6 && "latin9"@.len() == 6);
    assert("iso-8859-15"@.len() == 11 && "windows-1252"@.len() == 12);
    assert("cp1252"@.len() == 6 && "windows1252"@.len() == 11);
    assert(l.len() == 12 || l.len() == 6 || l.len() == 11);
    assert(l != "latin1"@ && l != "latin9"@) by {
        if l == "cp1252"@ {
            assert(l[0] == 'c');
            assert("latin1"@[0] == 'l' && "latin9"@[0] == 'l');
        }
    }
    assert(l != "iso-8859-15"@) by {
        if l == "windows1252"@ {
            assert(l[0] == 'w');
            assert("iso-8859-15"@[0] == 'i');
        }
    }
    assert(charset_text(bytes, label) == bytes.map_values(|b: u8| cp1252_char(b)));
}

} // verus!

verus! {

/// Where the value after `key` starts in the header text `h`. The key is looked for in the
/// lower-case text, and its byte offset there is used as a byte offset into `h`. `None`: no
/// key; `Some(None)`: that offset is not a character boundary of
/// `h` (slicing `h` there would panic); `Some(Some(k))`: the value starts at character `k`.
pub open spec fn key_value_start(h: Seq<char>, key: Seq<char>) -> Option<Option<int>> {
    let lo = lowercase(h);
    match find_seq(lo, key) {
        None => None,
        Some(p) => Some(char_index_at_byte(h, (utf8_len(lo.take(p)) + utf8_len(key)) as int)),
    }
}

/// Ends a boundary parameter value.
pub open spec fn is_boundary_stop(c: char) -> bool {
    c == ';' || c == '"' || c == '\r' || c == '\n' || c == ' '
}

/// Ends a charset parameter value.
pub open spec fn is_charset_stop(c: char) -> bool {
    is_ws(c) || c == ';' || c == '"' || c == '\'' || c == '\r' || c == '\n'
}

/// The first index at or after `i` that ends a boundary value.
pub open spec fn boundary_end(s: Seq<char>, i: int) -> int
    decreases s.len() - i,
{
    if i < 0 || i >= s.len() || is_boundary_stop(s[i]) {
        i
    } else {
        boundary_end(s, i + 1)
    }
}

/// The first index at or after `i` that ends a charset value.
pub open spec fn charset_end(s: Seq<char>, i: int) -> int
    decreases s.len() - i,
{
    if i < 0 || i >= s.len() || is_charset_stop(s[i]) {
        i
    } else {
        charset_end(s, i + 1)
    }
}

/// The multipart boundary named in a header block: the text after `boundary=` (any case),
/// opening quotes skipped, up to `;`, `"`, a line break or a space; none if that is empty.
/// The outer `None` marks a header block on which the lookup would slice inside a character.
pub open spec fn boundary_param(h: Seq<char>) -> Option<Option<Seq<char>>> {
    match key_value_start(h, "boundary="@) {
        None => Some(None),
        Some(None) => None,
        Some(Some(k)) => {
            let a = trim_start_set(h.subrange(k, h.len() as int), "\""@);
            let b = a.subrange(0, boundary_end(a, 0));
            if b.len() == 0 {
                Some(None)
            } else {
                Some(Some(b))
            }
        },
    }
}

/// The character set named in a header block: the text after `charset=` (any case), opening
/// quotes skipped, up to white space, `;`, a quote or a line break; `utf-8` when there is no
/// such parameter. `None` marks a header block on which the lookup would slice inside a
/// character.
pub open spec fn charset_param(h: Seq<char>) -> Option<Seq<char>> {
    match key_value_start(h, "charset="@) {
        None => Some("utf-8"@),
        Some(None) => None,
        Some(Some(k)) => {
            let a = trim_start_set(h.subrange(k, h.len() as int), "\"'"@);
            Some(a.subrange(0, charset_end(a, 0)))
        },
    }
}

/// Part of ASCII text is ASCII.
proof fn lemma_ascii_subrange(s: Seq<char>, a: int, b: int)
    requires
        all_ascii(s),
        0 <= a <= b <= s.len(),
    ensures
        all_ascii(s.subrange(a, b)),
{
    assert forall|i: int| 0 <= i < s.subrange(a, b).len() implies (#[trigger] s.subrange(a, b)[i]
        as u32) < 0x80 by {
        assert(s.subrange(a, b)[i] == s[a + i]);
    }
}

proof fn lemma_literal_ascii_boundary()
    ensures
        all_ascii("boundary="@),
{
    reveal_strlit("boundary=");
}

proof fn lemma_literal_ascii_charset()
    ensures
        all_ascii("charset="@),
{
    reveal_strlit("charset=");
}

/// In ASCII text whose lower case is the ASCII lower case, a key's value starts on a
/// character boundary, so looking it up is defined.
proof fn lemma_key_value_start_ascii(h: Seq<char>, key: Seq<char>)
    requires
        all_ascii(h),
        all_ascii(key),
        lowercase(h) == h.map_values(|c: char| ascii_lower(c)),
    ensures
        !(key_value_start(h, key) matches Some(None)),
{
    let lo = lowercase(h);
    assert(all_ascii(lo)) by {
        assert forall|i: int| 0 <= i < lo.len() implies (#[trigger] lo[i] as u32) < 0x80 by {
            assert(lo[i] == ascii_lower(h[i]));
            assert((h[i] as u32) < 0x80);
        }
    }
    lemma_find_from(lo, key, 0);
    if let Some(p) = find_seq(lo, key) {
        lemma_ascii_subrange(lo, 0, p);
        assert(lo.take(p) == lo.subrange(0, p));
        lemma_utf8_len_ascii(lo.take(p));
        lemma_utf8_len_ascii(key);
        lemma_char_index_ascii(h, p + key.len(), 0);
    }
}

/// Where the value after `key` starts in `h` (see `key_value_start`).
fn key_value_start_exec(h: &[char], key: &str) -> (r: Option<Option<usize>>)
    ensures
        match r {
            None => key_value_start(h@, key@) is None,
            Some(None) => key_value_start(h@, key@) == Some(None::<int>),
            Some(Some(k)) => key_value_start(h@, key@) == Some(Some(k as int)) && k <= h@.len(),
        },
        all_ascii(h@) && all_ascii(key@) ==> !(r matches Some(None)),
{
    let lo = lower_chars(h);
    let kc = chars_of(key);
    proof {
        lemma_find_from(lo@, key@, 0);
        if all_ascii(h@) && all_ascii(key@) {
            lemma_key_value_start_ascii(h@, key@);
        }
    }
    match find_exec(lo.as_slice(), kc.as_slice()) {
        None => None,
        Some(p) => {
            let pb = utf8_prefix_len(lo.as_slice(), p);
            let kb = utf8_prefix_len(kc.as_slice(), kc.len());
            assert(kc@.take(kc@.len() as int) == kc@);
            let r = char_index_at_byte_exec(h, pb + kb);
            proof {
                lemma_char_index_from_after(h@, (pb + kb) as int, 0);
            }
            match r {
                None => Some(None),
                Some(k) => Some(Some(k)),
            }
        },
    }
}

/// The value `s[..end]` where `end` is the first boundary stop.
fn boundary_value(s: &[char]) -> (r: Vec<char>)
    ensures
        r@ == s@.subrange(0, boundary_end(s@, 0)),
{
    let n = s.len();
    let mut k: usize = 0;
    while k < n && !(s[k] == ';' || s[k] == '"' || s[k] == '\r' || s[k] == '\n' || s[k] == ' ')
        invariant
            n == s@.len(),
            k <= n,
            boundary_end(s@, 0) == boundary_end(s@, k as int),
        decreases n - k,
    {
        k = k + 1;
    }
    copy_range(s, 0, k)
}

/// The value `s[..end]` where `end` is the first charset stop.
fn charset_value(s: &[char]) -> (r: Vec<char>)
    ensures
        r@ == s@.subrange(0, charset_end(s@, 0)),
{
    let n = s.len();
    let mut k: usize = 0;
    while k < n && !(is_ws_exec(s[k]) || s[k] == ';' || s[k] == '"' || s[k] == '\'' || s[k]
        == '\r' || s[k] == '\n')
        invariant
            n == s@.len(),
            k <= n,
            charset_end(s@, 0) == charset_end(s@, k as int),
        decreases n - k,
    {
        k = k + 1;
    }
    copy_range(s, 0, k)
}

/// The multipart boundary in a header block; the outer `None` where the lookup would slice
/// inside a character.
fn boundary_param_exec(h: &[char]) -> (r: Option<Option<Vec<char>>>)
    ensures
        match r {
            None => boundary_param(h@) is None,
            Some(None) => boundary_param(h@) == Some(None::<Seq<char>>),
            Some(Some(b)) => boundary_param(h@) == Some(Some(b@)),
        },
        all_ascii(h@) ==> r is Some,
{
    proof {
        lemma_literal_ascii_boundary();
    }
    match key_value_start_exec(h, "boundary=") {
        None => Some(None),
        Some(None) => None,
        Some(Some(k)) => {
            let rest = copy_range(h, k, h.len());
            let q = chars_of("\"");
            let a = trim_start_set_chars(rest.as_slice(), q.as_slice());
            let b = boundary_value(a.as_slice());
            if b.len() == 0 {
                Some(None)
            } else {
                Some(Some(b))
            }
        },
    }
}

/// The character set in a header block; `None` where the lookup would slice inside a
/// character.
fn charset_param_exec(h: &[char]) -> (r: Option<Vec<char>>)
    ensures
        match r {
            None => charset_param(h@) is None,
            Some(c) => charset_param(h@) == Some(c@),
        },
        all_ascii(h@) ==> r is Some,
{
    proof {
        lemma_literal_ascii_charset();
    }
    match key_value_start_exec(h, "charset=") {
        None => Some(chars_of("utf-8")),
        Some(None) => None,
        Some(Some(k)) => {
            let rest = copy_range(h, k, h.len());
            let q = chars_of("\"'");
            let a = trim_start_set_chars(rest.as_slice(), q.as_slice());
            Some(charset_value(a.as_slice()))
        },
    }
}

/// The multipart boundary named in a header block, its original case kept.
pub fn extract_boundary(headers: &str) -> (r: Option<String>)
    requires
        boundary_param(headers@) is Some,
    ensures
        match r {
            Some(b) => boundary_param(headers@) == Some(Some(b@)),
            None => boundary_param(headers@) == Some(None::<Seq<char>>),
        },
{
    let h = chars_of(headers);
    match boundary_param_exec(h.as_slice()) {
        Some(Some(b)) => Some(string_of(b.as_slice())),
        _ => None,
    }
}

/// The multipart boundary named in a header block, or `None` where reading the parameter is
/// undefined (its byte offset in the lower-case text is not a character boundary of the
/// headers).
pub fn try_extract_boundary(headers: &str) -> (r: Option<Option<String>>)
    ensures
        match r {
            None => boundary_param(headers@) is None,
            Some(None) => boundary_param(headers@) == Some(None::<Seq<char>>),
            Some(Some(b)) => boundary_param(headers@) == Some(Some(b@)),
        },
{
    let h = chars_of(headers);
    match boundary_param_exec(h.as_slice()) {
        None => None,
        Some(_) => Some(extract_boundary(headers)),
    }
}

/// The character set named in a header block (`utf-8` when none is).
pub fn extract_charset(headers: &str) -> (r: String)
    requires
        charset_param(headers@) is Some,
    ensures
        charset_param(headers@) == Some(r@),
{
    let h = chars_of(headers);
    match charset_param_exec(h.as_slice()) {
        Some(c) => string_of(c.as_slice()),
        None => String::new(),
    }
}

/// The character set named in a header block (`utf-8` when none is), or `None` where reading
/// the parameter is undefined.
pub fn try_extract_charset(headers: &str) -> (r: Option<String>)
    ensures
        match r {
            None => charset_param(headers@) is None,
            Some(c) => charset_param(headers@) == Some(c@),
        },
{
    let h = chars_of(headers);
    match charset_param_exec(h.as_slice()) {
        None => None,
        Some(_) => Some(extract_charset(headers)),
    }
}

/// The content type that a header block announces: `text/html` for an HTML or multipart type,
/// or for headers that look like HTML; `text/plain` otherwise.
pub open spec fn content_type_of(h: Seq<char>) -> Seq<char> {
    let l = lowercase(h);
    if contains_seq(l, "content-type: text/html"@) || contains_seq(l, "content-type: multipart/"@) {
        "text/html"@
    } else if contains_seq(l, "<html"@) || contains_seq(l, "<!doctype html"@) || contains_seq(
        l,
        "<body"@,
    ) {
        "text/html"@
    } else {
        "text/plain"@
    }
}

fn content_type_chars(h: &[char]) -> (r: String)
    ensures
        r@ == content_type_of(h@),
{
    let l = lower_chars(h);
    let l = l.as_slice();
    if contains_str(l, "content-type: text/html") || contains_str(l, "content-type: multipart/") {
        "text/html".to_owned()
    } else if contains_str(l, "<html") || contains_str(l, "<!doctype html") || contains_str(
        l,
        "<body",
    ) {
        "text/html".to_owned()
    } else {
        "text/plain".to_owned()
    }
}

/// Tells from the headers whether a message body is HTML or plain text.
pub fn detect_content_type_from_headers(headers: &str) -> (r: String)
    ensures
        r@ == content_type_of(headers@),
{
    let h = chars_of(headers);
    content_type_chars(h.as_slice())
}

} // verus!

verus! {

/// The header block and the body of a MIME part, split at the first blank line (`\r\n\r\n`,
/// else `\n\n`); a part without one is all body.
pub open spec fn part_split(part: Seq<char>) -> (Seq<char>, Seq<char>) {
    match find_seq(part, "\r\n\r\n"@) {
        Some(p) => (part.subrange(0, p), part.subrange(p + 4, part.len() as int)),
        None => match find_seq(part, "\n\n"@) {
            Some(p) => (part.subrange(0, p), part.subrange(p + 2, part.len() as int)),
            None => (Seq::empty(), part),
        },
    }
}

/// A part that starts with `--` (or with the boundary and `--`) closes the multipart body.
pub open spec fn is_closing_part(part: Seq<char>, boundary: Seq<char>) -> bool {
    starts_with_seq(part, "--"@) || starts_with_seq(part, boundary + "--"@)
}

/// The decoded text of a MIME part: its body without trailing line breaks, its transfer
/// encoding undone, its bytes read in the part's character set. `None` where reading the
/// character set would slice inside a character.
pub open spec fn part_text(part: Seq<char>) -> Option<Seq<char>> {
    let (ph, pb0) = part_split(part);
    let pb = trim_end_set(trim_end_str(pb0, "\r\n"@), "\n"@);
    let pl = lowercase(ph);
    let bytes = if contains_seq(pl, "content-transfer-encoding: base64"@) {
        base64_bytes(pb)
    } else if contains_seq(pl, "content-transfer-encoding: quoted-printable"@) {
        qp_bytes(pb)
    } else {
        vstd::utf8::encode_utf8(pb)
    };
    match charset_param(ph) {
        None => None,
        Some(cs) => Some(charset_text(bytes, cs)),
    }
}

/// A part whose header declares `Content-Transfer-Encoding: base64` yields the base64 decoding
/// of its body read in the part's character set (UTF-8 where the header names none): the text
/// that comes out is the decoded one, never the encoded body.
pub proof fn law_base64_part_is_decoded(h: Seq<char>, b: Seq<char>)
    requires
        !contains_seq(h, "\r\n\r\n"@),
        h.len() == 0 || h.last() != '\n',
        b.len() == 0 || b.last() != '\n',
        contains_seq(lowercase(h), "content-transfer-encoding: base64"@),
    ensures
        part_text(h + "\r\n\r\n"@ + b) == match charset_param(h) {
            None => None,
            Some(cs) => Some(charset_text(base64_bytes(b), cs)),
        },
        charset_param(h) == Some("utf-8"@) && lowercase("utf-8"@) == "utf-8"@ ==> part_text(
            h + "\r\n\r\n"@ + b,
        ) == Some(utf8_lossy(base64_bytes(b))),
{
    reveal_strlit("\r\n\r\n");
    reveal_strlit("\r\n");
    reveal_strlit("\n");
    reveal_strlit("utf-8");
    reveal_strlit("utf8");
    let sep = "\r\n\r\n"@;
    let text = h + sep + b;
    let k = h.len() as int;
    assert(text.subrange(k, k + 4) =~= sep);
    assert(occurs_at(text, sep, k));
    lemma_find_from(h, sep, 0);
    lemma_find_from(text, sep, 0);
    match find_from(text, sep, 0) {
        Some(i) => {
            if i < k {
                assert(text.subrange(i, i + 4) == sep);
                assert(text.subrange(i, i + 4)[0] == text[i]);
                assert(text.subrange(i, i + 4)[1] == text[i + 1]);
                assert(text.subrange(i, i + 4)[2] == text[i + 2]);
                assert(text.subrange(i, i + 4)[3] == text[i + 3]);
                assert(text[k] == '\r' && text[k + 1] == '\n');
                if i + 4 <= k {
                    assert(h.subrange(i, i + 4) =~= text.subrange(i, i + 4));
                    assert(occurs_at(h, sep, i));
                } else if i == k - 1 {
                } else if i == k - 2 {
                    assert(text[k - 1] == h.last());
                } else {
                }
            }
        },
        None => {},
    }
    assert(find_seq(text, sep) == Some(k));
    assert(text.subrange(0, k) =~= h);
    assert(text.subrange(k + 4, text.len() as int) =~= b);
    assert(part_split(text) == (h, b));
    if b.len() >= 2 {
        assert(b.subrange(b.len() - 2, b.len() as int)[1] == b.last());
    }
    assert(!crate::text::ends_with_seq(b, "\r\n"@));
    assert(trim_end_str(b, "\r\n"@) == b);
    assert(!"\n"@.contains(b.last()) || b.len() == 0) by {
        if b.len() > 0 && "\n"@.contains(b.last()) {
            let j = choose|j: int| 0 <= j < "\n"@.len() && "\n"@[j] == b.last();
            assert(j == 0);
        }
    }
    assert(trim_end_set(b, "\n"@) == b);
}

/// The first non-empty HTML part and the first non-empty plain-text part among `parts`.
pub open spec fn pick_parts(parts: Seq<Seq<char>>, boundary: Seq<char>) -> Option<
    (Seq<char>, Seq<char>),
>
    decreases parts.len(),
{
    if parts.len() == 0 {
        Some((Seq::empty(), Seq::empty()))
    } else {
        match pick_parts(parts.drop_last(), boundary) {
            None => None,
            Some((html, plain)) => {
                let part = parts.last();
                if is_closing_part(part, boundary) {
                    Some((html, plain))
                } else {
                    let pl = lowercase(part_split(part).0);
                    match part_text(part) {
                        None => None,
                        Some(d) => if contains_seq(pl, "content-type: text/html"@) && html.len()
                            == 0 {
                            Some((d, plain))
                        } else if contains_seq(pl, "content-type: text/plain"@) && plain.len()
                            == 0 {
                            Some((html, d))
                        } else {
                            Some((html, plain))
                        },
                    }
                }
            },
        }
    }
}

/// The best text of a multipart body: the first HTML part, else the first plain-text part.
/// `None` where decoding a part would slice inside a character.
pub open spec fn multipart_text(body: Seq<char>, boundary: Seq<char>) -> Option<Seq<char>> {
    let parts = split_seq(body, "--"@ + boundary);
    match pick_parts(parts.subrange(1, parts.len() as int), boundary) {
        None => None,
        Some((html, plain)) => Some(
            if html.len() > 0 {
                html
            } else {
                plain
            },
        ),
    }
}

/// The pieces of ASCII text split at a delimiter are ASCII.
proof fn lemma_split_ascii(s: Seq<char>, d: Seq<char>, pos: int)
    requires
        all_ascii(s),
    ensures
        forall|i: int|
            0 <= i < split_from(s, d, pos).len() ==> all_ascii(#[trigger] split_from(s, d, pos)[i]),
    decreases s.len() + 1 - pos,
{
    if pos < 0 || pos > s.len() || d.len() == 0 {
    } else {
        lemma_find_from(s, d, pos);
        match find_from(s, d, pos) {
            None => {
                lemma_ascii_subrange(s, pos, s.len() as int);
            },
            Some(i) => {
                lemma_ascii_subrange(s, pos, i);
                lemma_split_ascii(s, d, i + d.len());
                let rest = split_from(s, d, i + d.len());
                let all = split_from(s, d, pos);
                assert(all == seq![s.subrange(pos, i)] + rest);
                assert forall|k: int| 0 <= k < all.len() implies all_ascii(#[trigger] all[k]) by {
                    if k > 0 {
                        assert(all[k] == rest[k - 1]);
                    }
                }
            },
        }
    }
}

/// A MIME part's header block and body.
fn part_split_exec(part: &[char]) -> (r: (Vec<char>, Vec<char>))
    ensures
        (r.0@, r.1@) == part_split(part@),
        all_ascii(part@) ==> all_ascii(r.0@),
{
    proof {
        reveal_strlit("\r\n\r\n");
        reveal_strlit("\n\n");
        lemma_find_from(part@, "\r\n\r\n"@, 0);
        lemma_find_from(part@, "\n\n"@, 0);
    }
    let n = part.len();
    match find_str(part, "\r\n\r\n") {
        Some(p) => {
            proof {
                if all_ascii(part@) {
                    lemma_ascii_subrange(part@, 0, p as int);
                }
            }
            (copy_range(part, 0, p), copy_range(part, p + 4, n))
        },
        None => match find_str(part, "\n\n") {
            Some(p) => {
                proof {
                    if all_ascii(part@) {
                        lemma_ascii_subrange(part@, 0, p as int);
                    }
                }
                (copy_range(part, 0, p), copy_range(part, p + 2, n))
            },
            None => (Vec::new(), copy_range(part, 0, n)),
        },
    }
}

/// The decoded text of a MIME part.
fn part_text_exec(part: &[char]) -> (r: Option<String>)
    ensures
        match r {
            None => part_text(part@) is None,
            Some(t) => part_text(part@) == Some(t@),
        },
        all_ascii(part@) ==> r is Some,
{
    let (ph, pb0) = part_split_exec(part);
    let crlf = chars_of("\r\n");
    let lf = chars_of("\n");
    let pb1 = trim_end_str_chars(pb0.as_slice(), crlf.as_slice());
    let pb = trim_end_set_chars(pb1.as_slice(), lf.as_slice());
    let pl = lower_chars(ph.as_slice());
    let pbs = string_of(pb.as_slice());
    let bytes = if contains_str(pl.as_slice(), "content-transfer-encoding: base64") {
        decode_base64_to_bytes(pbs.as_str())
    } else if contains_str(pl.as_slice(), "content-transfer-encoding: quoted-printable") {
        decode_quoted_printable_to_bytes(pbs.as_str())
    } else {
        utf8_bytes(pb.as_slice())
    };
    match charset_param_exec(ph.as_slice()) {
        None => None,
        Some(cs) => {
            let css = string_of(cs.as_slice());
            Some(charset_decode(bytes.as_slice(), css.as_str()))
        },
    }
}

/// The best text of a multipart body; `None` where decoding a part would slice inside a
/// character.
fn multipart_text_exec(body: &[char], boundary: &[char]) -> (r: Option<String>)
    ensures
        match r {
            None => multipart_text(body@, boundary@) is None,
            Some(t) => multipart_text(body@, boundary@) == Some(t@),
        },
        all_ascii(body@) ==> r is Some,
{
    let mut delim: Vec<char> = Vec::new();
    delim.push('-');
    delim.push('-');
    append_all(&mut delim, boundary);
    let mut closing: Vec<char> = Vec::new();
    append_all(&mut closing, boundary);
    closing.push('-');
    closing.push('-');
    proof {
        reveal_strlit("--");
        assert(delim@ == "--"@ + boundary@);
        assert(closing@ == boundary@ + "--"@);
    }
    let parts = split_on(body, delim.as_slice());
    let ghost ps = views(parts@);
    proof {
        lemma_split_nonempty(body@, delim@, 0);
    }
    let mut html: Vec<char> = Vec::new();
    let mut plain: Vec<char> = Vec::new();
    let mut i: usize = 1;
    assert(ps.subrange(1, 1) == Seq::<Seq<char>>::empty());
    while i < parts.len()
        invariant
            ps == views(parts@),
            ps == split_seq(body@, delim@),
            delim@ == "--"@ + boundary@,
            closing@ == boundary@ + "--"@,
            1 <= i <= parts@.len(),
            pick_parts(ps.subrange(1, i as int), boundary@) == Some((html@, plain@)),
        decreases parts.len() - i,
    {
        let part = &parts[i];
        assert(ps.subrange(1, i + 1).drop_last() == ps.subrange(1, i as int));
        assert(ps.subrange(1, i + 1).last() == part@);
        let closes = starts_with_str(part.as_slice(), "--") || starts_with_exec(
            part.as_slice(),
            closing.as_slice(),
        );
        if !closes {
            let (ph, _pb) = part_split_exec(part.as_slice());
            let pl = lower_chars(ph.as_slice());
            let is_html = contains_str(pl.as_slice(), "content-type: text/html");
            let is_plain = contains_str(pl.as_slice(), "content-type: text/plain");
            match part_text_exec(part.as_slice()) {
                None => {
                    proof {
                        if all_ascii(body@) {
                            lemma_split_ascii(body@, delim@, 0);
                            assert(ps[i as int] == part@);
                            assert(all_ascii(ps[i as int]));
                        }
                        lemma_pick_parts_none(ps.subrange(1, parts@.len() as int), boundary@, i - 1);
                        assert(ps.subrange(1, parts@.len() as int).take(i as int) == ps.subrange(
                            1,
                            i + 1,
                        ));
                    }
                    return None;
                },
                Some(d) => {
                    if is_html && html.len() == 0 {
                        html = chars_of(d.as_str());
                    } else if is_plain && plain.len() == 0 {
                        plain = chars_of(d.as_str());
                    }
                },
            }
        }
        i = i + 1;
    }
    assert(ps.subrange(1, parts@.len() as int) == ps.subrange(1, i as int));
    if html.len() > 0 {
        Some(string_of(html.as_slice()))
    } else {
        Some(string_of(plain.as_slice()))
    }
}

/// `str::split` yields at least one piece.
proof fn lemma_split_nonempty(s: Seq<char>, d: Seq<char>, pos: int)
    requires
        0 <= pos <= s.len(),
        d.len() > 0,
    ensures
        split_from(s, d, pos).len() >= 1,
    decreases s.len() + 1 - pos,
{
    lemma_find_from(s, d, pos);
    if let Some(i) = find_from(s, d, pos) {
        lemma_split_nonempty(s, d, i + d.len());
    }
}

/// Once a part fails to decode, picking among any longer list of parts fails too.
proof fn lemma_pick_parts_none(parts: Seq<Seq<char>>, boundary: Seq<char>, k: int)
    requires
        0 <= k < parts.len(),
        pick_parts(parts.take(k + 1), boundary) is None,
    ensures
        pick_parts(parts, boundary) is None,
    decreases parts.len(),
{
    if k + 1 < parts.len() {
        assert(parts.drop_last().take(k + 1) == parts.take(k + 1));
        lemma_pick_parts_none(parts.drop_last(), boundary, k);
    } else {
        assert(parts.take(k + 1) == parts);
    }
}

/// Extracts the best text of a multipart body: the first HTML part, else the first plain-text
/// part, each with its transfer encoding undone and read in its character set.
pub fn extract_multipart_body(body: &str, boundary: &str) -> (r: String)
    requires
        multipart_text(body@, boundary@) is Some,
    ensures
        multipart_text(body@, boundary@) == Some(r@),
{
    let b = chars_of(body);
    let bd = chars_of(boundary);
    match multipart_text_exec(b.as_slice(), bd.as_slice()) {
        Some(t) => t,
        None => String::new(),
    }
}

/// The best text of a multipart body, or `None` where decoding a part would slice inside a
/// character.
pub fn try_extract_multipart_body(body: &str, boundary: &str) -> (r: Option<String>)
    ensures
        match r {
            None => multipart_text(body@, boundary@) is None,
            Some(t) => multipart_text(body@, boundary@) == Some(t@),
        },
{
    let b = chars_of(body);
    let bd = chars_of(boundary);
    match multipart_text_exec(b.as_slice(), bd.as_slice()) {
        None => None,
        Some(_) => Some(extract_multipart_body(body, boundary)),
    }
}

} // verus!

verus! {

/// The text of a message body given its headers: the best part of a multipart body; otherwise
/// the body with a base64 or quoted-printable transfer encoding undone, or as it stands.
/// `None` where reading would slice inside a character.
pub open spec fn body_text(body: Seq<char>, h: Seq<char>) -> Option<Seq<char>> {
    match boundary_param(h) {
        None => None,
        Some(Some(b)) => multipart_text(body, b),
        Some(None) => {
            let l = lowercase(h);
            if contains_seq(l, "content-transfer-encoding: base64"@) {
                Some(utf8_lossy(base64_bytes(body)))
            } else if contains_seq(l, "content-transfer-encoding: quoted-printable"@) {
                Some(qp_text(body))
            } else {
                Some(body)
            }
        },
    }
}

fn body_text_exec(body: &[char], h: &[char]) -> (r: Option<String>)
    ensures
        match r {
            None => body_text(body@, h@) is None,
            Some(t) => body_text(body@, h@) == Some(t@),
        },
        all_ascii(body@) && all_ascii(h@) ==> r is Some,
{
    match boundary_param_exec(h) {
        None => None,
        Some(Some(b)) => multipart_text_exec(body, b.as_slice()),
        Some(None) => {
            let l = lower_chars(h);
            let bs = string_of(body);
            if contains_str(l.as_slice(), "content-transfer-encoding: base64") {
                Some(decode_base64(bs.as_str()))
            } else if contains_str(l.as_slice(), "content-transfer-encoding: quoted-printable") {
                Some(decode_quoted_printable(bs.as_str()))
            } else {
                Some(bs)
            }
        },
    }
}

/// The text of a message body: the best part if it is multipart (HTML preferred), else the
/// body with its transfer encoding undone.
pub fn maybe_extract_multipart(body: &str, headers: &str) -> (r: String)
    requires
        body_text(body@, headers@) is Some,
    ensures
        body_text(body@, headers@) == Some(r@),
{
    let b = chars_of(body);
    let h = chars_of(headers);
    match body_text_exec(b.as_slice(), h.as_slice()) {
        Some(t) => t,
        None => String::new(),
    }
}

/// The text of a message body given its headers, or `None` where reading it would slice
/// inside a character.
pub fn try_maybe_extract_multipart(body: &str, headers: &str) -> (r: Option<String>)
    ensures
        match r {
            None => body_text(body@, headers@) is None,
            Some(t) => body_text(body@, headers@) == Some(t@),
        },
{
    let b = chars_of(body);
    let h = chars_of(headers);
    match body_text_exec(b.as_slice(), h.as_slice()) {
        None => None,
        Some(_) => Some(maybe_extract_multipart(body, headers)),
    }
}

/// A message body and the content type it is shown with.
pub struct ParsedBody {
    pub body: String,
    pub content_type: String,
}

/// A message body and its content type, as character sequences.
pub struct BodyView {
    pub body: Seq<char>,
    pub content_type: Seq<char>,
}

impl View for ParsedBody {
    type V = BodyView;

    open spec fn view(&self) -> BodyView {
        BodyView { body: self.body@, content_type: self.content_type@ }
    }
}

/// No body, shown as plain text.
pub open spec fn empty_plain() -> BodyView {
    BodyView { body: Seq::empty(), content_type: "text/plain"@ }
}

/// Where the body of an RFC 822 message starts: after the first `\r\n\r\n`, else after the
/// first `\n\n`, else at the start.
pub open spec fn body_start(t: Seq<char>) -> int {
    match find_seq(t, "\r\n\r\n"@) {
        Some(p) => p + 4,
        None => match find_seq(t, "\n\n"@) {
            Some(p) => p + 2,
            None => 0,
        },
    }
}

/// A whole RFC 822 message: the text of its body, and the content type its headers announce.
pub open spec fn message_body(t: Seq<char>) -> Option<BodyView> {
    let bs = body_start(t);
    let headers = t.subrange(0, bs);
    match body_text(t.subrange(bs, t.len() as int), headers) {
        None => None,
        Some(b) => Some(BodyView { body: b, content_type: content_type_of(headers) }),
    }
}

/// A FETCH response's literal: the characters from `ds` up to `size` bytes later (or the end),
/// `None` where that point would not fit in a `usize` or falls inside a character.
pub open spec fn literal_end(r: Seq<char>, ds: int, size: nat) -> Option<int> {
    let start = utf8_len(r.take(ds));
    if start + size > usize::MAX {
        None
    } else {
        let end: int = if start + size < utf8_len(r) {
            (start + size) as int
        } else {
            utf8_len(r) as int
        };
        char_index_from(r, end, ds)
    }
}

/// The body of a message as stored: a raw IMAP FETCH response (its literal, `{size}` bytes
/// after the `{size}\r\n` that follows `FETCH`) or a bare RFC 822 message. A response that
/// holds only headers gives an empty body, shown as HTML if the headers announce HTML or
/// multipart content. `None` marks text on which reading is undefined: a literal end that
/// does not fit in a `usize` or falls inside a character, or a parameter lookup that slices
/// inside one.
pub open spec fn email_body(r: Seq<char>) -> Option<BodyView> {
    if starts_with_seq(r, "* "@) && contains_seq(r, "FETCH"@) {
        let header_only = contains_seq(r, "RFC822.HEADER"@) && !contains_seq(r, "RFC822 "@)
            && !contains_seq(r, "BODY[]"@);
        match find_seq(r, "FETCH"@) {
            None => Some(empty_plain()),
            Some(fp) => match find_from(r, "{"@, fp) {
                None => Some(empty_plain()),
                Some(ls) => match find_from(r, "}\r\n"@, ls) {
                    None => Some(empty_plain()),
                    Some(le) => {
                        let size = match parse_usize_seq(r.subrange(ls + 1, le)) {
                            Some(v) => v,
                            None => 0,
                        };
                        let ds = le + 3;
                        if ds >= r.len() {
                            Some(empty_plain())
                        } else {
                            match literal_end(r, ds, size) {
                                None => None,
                                Some(end) => {
                                    let lit = r.subrange(ds, end);
                                    if header_only {
                                        let l = lowercase(lit);
                                        Some(
                                            BodyView {
                                                body: Seq::empty(),
                                                content_type: if contains_seq(
                                                    l,
                                                    "content-type: text/html"@,
                                                ) || contains_seq(l, "content-type: multipart/"@) {
                                                    "text/html"@
                                                } else {
                                                    "text/plain"@
                                                },
                                            },
                                        )
                                    } else {
                                        message_body(lit)
                                    }
                                },
                            }
                        }
                    },
                },
            },
        }
    } else {
        message_body(r)
    }
}

fn empty_plain_exec() -> (r: ParsedBody)
    ensures
        r@ == empty_plain(),
{
    ParsedBody { body: String::new(), content_type: "text/plain".to_owned() }
}

fn message_body_exec(t: &[char]) -> (r: Option<ParsedBody>)
    ensures
        match r {
            None => message_body(t@) is None,
            Some(b) => message_body(t@) == Some(b@),
        },
        all_ascii(t@) ==> r is Some,
{
    proof {
        reveal_strlit("\r\n\r\n");
        reveal_strlit("\n\n");
        lemma_find_from(t@, "\r\n\r\n"@, 0);
        lemma_find_from(t@, "\n\n"@, 0);
    }
    let n = t.len();
    let bs = match find_str(t, "\r\n\r\n") {
        Some(p) => p + 4,
        None => match find_str(t, "\n\n") {
            Some(p) => p + 2,
            None => 0,
        },
    };
    let headers = copy_range(t, 0, bs);
    let rest = copy_range(t, bs, n);
    proof {
        if all_ascii(t@) {
            lemma_ascii_subrange(t@, 0, bs as int);
            lemma_ascii_subrange(t@, bs as int, n as int);
        }
    }
    match body_text_exec(rest.as_slice(), headers.as_slice()) {
        None => None,
        Some(b) => Some(ParsedBody { body: b, content_type: content_type_chars(headers.as_slice()) }),
    }
}

/// Reads the body of a stored message; `None` on text where reading is undefined (see
/// `email_body`).
fn email_body_exec(r: &[char]) -> (out: Option<ParsedBody>)
    ensures
        match out {
            None => email_body(r@) is None,
            Some(b) => email_body(r@) == Some(b@),
        },
        all_ascii(r@) && !(starts_with_seq(r@, "* "@) && contains_seq(r@, "FETCH"@)) ==> out is Some,
{
    let n = r.len();
    if !(starts_with_str(r, "* ") && contains_str(r, "FETCH")) {
        return message_body_exec(r);
    }
    let header_only = contains_str(r, "RFC822.HEADER") && !contains_str(r, "RFC822 ")
        && !contains_str(r, "BODY[]");
    proof {
        reveal_strlit("FETCH");
        reveal_strlit("{");
        reveal_strlit("}\r\n");
        lemma_find_from(r@, "FETCH"@, 0);
    }
    let fp = match find_str(r, "FETCH") {
        None => return Some(empty_plain_exec()),
        Some(fp) => fp,
    };
    let open = chars_of("{");
    proof {
        lemma_find_from(r@, "{"@, fp as int);
    }
    let ls = match crate::text::find_from_exec(r, open.as_slice(), fp) {
        None => return Some(empty_plain_exec()),
        Some(ls) => ls,
    };
    let close = chars_of("}\r\n");
    proof {
        lemma_find_from(r@, "}\r\n"@, ls as int);
        if let Some(le) = find_from(r@, "}\r\n"@, ls as int) {
            if le == ls {
                assert(r@.subrange(ls as int, ls + 1)[0] == r@[ls as int]);
                assert(r@.subrange(le as int, le + 3)[0] == r@[le as int]);
            }
        }
    }
    let le = match crate::text::find_from_exec(r, close.as_slice(), ls) {
        None => return Some(empty_plain_exec()),
        Some(le) => le,
    };
    let size_chars = copy_range(r, ls + 1, le);
    let size: usize = match parse_usize_chars(size_chars.as_slice()) {
        Some(v) => v,
        None => 0,
    };
    let ds = le + 3;
    if ds >= n {
        return Some(empty_plain_exec());
    }
    let start = utf8_prefix_len(r, ds);
    let total = utf8_prefix_len(r, n);
    assert(r@.take(n as int) == r@);
    if start + (size as u128) > usize::MAX as u128 {
        return None;
    }
    let end = if start + (size as u128) < total {
        start + (size as u128)
    } else {
        total
    };
    proof {
        lemma_char_index_from_after(r@, end as int, ds as int);
    }
    let lend = match char_index_from_exec(r, end, ds) {
        None => return None,
        Some(k) => k,
    };
    let lit = copy_range(r, ds, lend);
    if header_only {
        let l = lower_chars(lit.as_slice());
        let ct = if contains_str(l.as_slice(), "content-type: text/html") || contains_str(
            l.as_slice(),
            "content-type: multipart/",
        ) {
            "text/html".to_owned()
        } else {
            "text/plain".to_owned()
        };
        Some(ParsedBody { body: String::new(), content_type: ct })
    } else {
        message_body_exec(lit.as_slice())
    }
}

/// Whether `parse_email_body` is defined on `raw`.
pub fn email_body_is_defined(raw: &str) -> (r: bool)
    ensures
        r == email_body(raw@) is Some,
        all_ascii(raw@) && !(starts_with_seq(raw@, "* "@) && contains_seq(raw@, "FETCH"@)) ==> r,
{
    let s = chars_of(raw);
    email_body_exec(s.as_slice()).is_some()
}

/// Reads the body of a stored message: a raw IMAP FETCH response with the full message or only
/// its headers, or a bare RFC 822 message. Multipart bodies give their best part, HTML
/// preferred; transfer encodings are undone.
pub fn parse_email_body(raw: &str) -> (r: ParsedBody)
    requires
        email_body(raw@) is Some,
    ensures
        email_body(raw@) == Some(r@),
{
    let s = chars_of(raw);
    match email_body_exec(s.as_slice()) {
        Some(b) => b,
        None => empty_plain_exec(),
    }
}

/// Reads the body of a stored message where that is defined; `None` on text on which it is
/// not (see `email_body`).
pub fn try_parse_email_body(raw: &str) -> (r: Option<ParsedBody>)
    ensures
        match r {
            None => email_body(raw@) is None,
            Some(b) => email_body(raw@) == Some(b@),
        },
        all_ascii(raw@) && !(starts_with_seq(raw@, "* "@) && contains_seq(raw@, "FETCH"@)) ==> r
            is Some,
{
    if email_body_is_defined(raw) {
        Some(parse_email_body(raw))
    } else {
        None
    }
}

/// Part `i` of `parts` is a body part (not a closing one) that declares itself HTML.
pub open spec fn is_html_part(parts: Seq<Seq<char>>, boundary: Seq<char>, i: int) -> bool {
    &&& 0 <= i < parts.len()
    &&& !is_closing_part(parts[i], boundary)
    &&& contains_seq(lowercase(part_split(parts[i]).0), "content-type: text/html"@)
}

/// The HTML text picked among parts is the decoded text of one of the HTML parts.
proof fn lemma_picked_html_is_a_part(parts: Seq<Seq<char>>, boundary: Seq<char>)
    ensures
        match pick_parts(parts, boundary) {
            Some((html, _)) => html.len() > 0 ==> exists|i: int|
                #[trigger] is_html_part(parts, boundary, i) && part_text(parts[i]) == Some(html),
            None => true,
        },
    decreases parts.len(),
{
    if parts.len() > 0 {
        let prefix = parts.drop_last();
        lemma_picked_html_is_a_part(prefix, boundary);
        if let Some((h0, _)) = pick_parts(prefix, boundary) {
            if h0.len() > 0 {
                let i = choose|i: int|
                    #[trigger] is_html_part(prefix, boundary, i) && part_text(prefix[i]) == Some(h0);
                assert(parts[i] == prefix[i]);
                assert(is_html_part(parts, boundary, i));
            } else {
                let k = parts.len() - 1;
                assert(parts[k] == parts.last());
                if let Some((h, _)) = pick_parts(parts, boundary) {
                    if h.len() > 0 {
                        assert(is_html_part(parts, boundary, k));
                    }
                }
            }
        }
    }
}

/// Once HTML text has been picked from some parts, it stays picked as more parts follow
/// (unless a later part cannot be decoded at all).
proof fn lemma_picked_html_stays(parts: Seq<Seq<char>>, boundary: Seq<char>, n: int)
    requires
        0 <= n <= parts.len(),
        pick_parts(parts.take(n), boundary) matches Some((h, _)) && h.len() > 0,
    ensures
        pick_parts(parts, boundary) matches Some((h, _)) ==> h.len() > 0,
    decreases parts.len(),
{
    if n < parts.len() {
        assert(parts.drop_last().take(n) == parts.take(n));
        lemma_picked_html_stays(parts.drop_last(), boundary, n);
    } else {
        assert(parts.take(n) == parts);
    }
}

/// An HTML part whose text decodes to something non-empty makes the HTML text picked non-empty.
proof fn lemma_html_part_is_picked(parts: Seq<Seq<char>>, boundary: Seq<char>, i: int)
    requires
        is_html_part(parts, boundary, i),
        part_text(parts[i]) matches Some(d) && d.len() > 0,
    ensures
        pick_parts(parts, boundary) matches Some((h, _)) ==> h.len() > 0,
    decreases parts.len(),
{
    let k = parts.len() - 1;
    if i < k {
        let prefix = parts.drop_last();
        assert(prefix[i] == parts[i]);
        assert(is_html_part(prefix, boundary, i));
        lemma_html_part_is_picked(prefix, boundary, i);
        if let Some((h0, _)) = pick_parts(prefix, boundary) {
            assert(parts.take(k) == prefix);
            lemma_picked_html_stays(parts, boundary, k);
        }
    } else {
        assert(parts.last() == parts[i]);
    }
}

/// A multipart body shows HTML when it has any: if one of its HTML parts decodes to
/// non-empty text, the text extracted is the decoded text of one of its HTML parts.
pub proof fn law_multipart_prefers_html(body: Seq<char>, boundary: Seq<char>, i: int)
    requires
        ({
            let ps = split_seq(body, "--"@ + boundary);
            let parts = ps.subrange(1, ps.len() as int);
            &&& is_html_part(parts, boundary, i)
            &&& part_text(parts[i]) matches Some(d) && d.len() > 0
        }),
    ensures
        ({
            let ps = split_seq(body, "--"@ + boundary);
            let parts = ps.subrange(1, ps.len() as int);
            match multipart_text(body, boundary) {
                Some(t) => exists|j: int|
                    #[trigger] is_html_part(parts, boundary, j) && part_text(parts[j]) == Some(t),
                None => true,
            }
        }),
{
    let ps = split_seq(body, "--"@ + boundary);
    let parts = ps.subrange(1, ps.len() as int);
    lemma_html_part_is_picked(parts, boundary, i);
    lemma_picked_html_is_a_part(parts, boundary);
}

/// A whole message as a FETCH response carries it: `* 1 FETCH (RFC822 {n}`, a line break,
/// the `n` characters of the message, and `)` closing the response.
pub open spec fn fetch_wrapped(m: Seq<char>) -> Seq<char> {
    "* 1 FETCH (RFC822 {"@ + decimal(m.len()) + "}\r\n"@ + m + ")\r\n"@
}

/// The first occurrence at or after `from` is the one at `at` when none comes earlier.
proof fn lemma_find_from_is(hay: Seq<char>, needle: Seq<char>, from: int, at: int)
    requires
        0 <= from <= at,
        occurs_at(hay, needle, at),
        forall|k: int| from <= k < at ==> !occurs_at(hay, needle, k),
    ensures
        find_from(hay, needle, from) == Some(at),
{
    lemma_find_from(hay, needle, from);
}

/// ASCII text takes one byte per character.
proof fn lemma_utf8_len_ascii(s: Seq<char>)
    requires
        all_ascii(s),
    ensures
        utf8_len(s) == s.len(),
    decreases s.len(),
{
    if s.len() > 0 {
        assert(all_ascii(s.drop_last())) by {
            assert forall|i: int| 0 <= i < s.drop_last().len() implies (#[trigger] s.drop_last()[i]
                as u32) < 0x80 by {
                assert(s.drop_last()[i] == s[i]);
            }
        }
        lemma_utf8_len_ascii(s.drop_last());
        assert((s.last() as u32) < 0x80) by {
            assert(s.last() == s[s.len() - 1]);
        }
    }
}

/// In ASCII text every byte offset from `k` to the end is the character index itself.
proof fn lemma_char_index_ascii(s: Seq<char>, b: int, k: int)
    requires
        all_ascii(s),
        0 <= k <= b <= s.len(),
    ensures
        char_index_from(s, b, k) == Some(b),
    decreases b - k,
{
    assert(all_ascii(s.take(k))) by {
        assert forall|i: int| 0 <= i < s.take(k).len() implies (#[trigger] s.take(k)[i] as u32)
            < 0x80 by {
            assert(s.take(k)[i] == s[i]);
        }
    }
    lemma_utf8_len_ascii(s.take(k));
    if k < b {
        lemma_char_index_ascii(s, b, k + 1);
    }
}

/// Where the `}` closing the size of `fetch_wrapped(m)` stands.
pub open spec fn fetch_size_end(m: Seq<char>) -> int {
    19 + decimal(m.len()).len() as int
}

/// The characters of `fetch_wrapped(m)`, part by part.
#[verifier::spinoff_prover]
proof fn lemma_fetch_wrapped_chars(m: Seq<char>)
    ensures
        ({
            let w = fetch_wrapped(m);
            let d = decimal(m.len());
            let le = fetch_size_end(m);
            let ds = le + 3;
            &&& d.len() > 0
            &&& crate::text::all_digits(d)
            &&& crate::text::digits_value(d) == m.len()
            &&& w.len() == ds + m.len() + 3
            &&& w.subrange(0, 19) == "* 1 FETCH (RFC822 {"@
            &&& w.subrange(19, le) == d
            &&& w.subrange(le, ds) == "}\r\n"@
            &&& w.subrange(ds, ds + m.len()) == m
            &&& w.subrange(ds + m.len(), w.len() as int) == ")\r\n"@
        }),
{
    reveal_strlit("* 1 FETCH (RFC822 {");
    reveal_strlit("}\r\n");
    reveal_strlit(")\r\n");
    let p = "* 1 FETCH (RFC822 {"@;
    let q = "}\r\n"@;
    let z = ")\r\n"@;
    let n = m.len();
    let d = decimal(n);
    let w = fetch_wrapped(m);
    assert(w == p + d + q + m + z);
    law_decimal_reads_back(n, n);
    let le = fetch_size_end(m);
    let ds = le + 3;
    assert(w.subrange(0, 19) =~= p);
    assert(w.subrange(19, le) =~= d);
    assert(w.subrange(le, ds) =~= q);
    assert(w.subrange(ds, ds + n) =~= m);
    assert(w.subrange(ds + n, w.len() as int) =~= z);
}

/// How `email_body` finds its way through the header of `fetch_wrapped(m)`: it is a FETCH
/// response of a whole message, the literal's `{` is the one at 18, its size the length of `m`.
#[verifier::spinoff_prover]
proof fn lemma_fetch_wrapped_header(m: Seq<char>)
    requires
        m.len() <= usize::MAX,
    ensures
        ({
            let w = fetch_wrapped(m);
            let le = fetch_size_end(m);
            &&& starts_with_seq(w, "* "@)
            &&& contains_seq(w, "FETCH"@)
            &&& find_seq(w, "FETCH"@) == Some(4int)
            &&& contains_seq(w, "RFC822 "@)
            &&& find_from(w, "{"@, 4) == Some(18int)
            &&& find_from(w, "}\r\n"@, 18) == Some(le)
            &&& parse_usize_seq(w.subrange(19, le)) == Some(m.len())
        }),
{
    reveal_strlit("* 1 FETCH (RFC822 {");
    reveal_strlit("}\r\n");
    reveal_strlit("* ");
    reveal_strlit("FETCH");
    reveal_strlit("RFC822 ");
    reveal_strlit("{");
    lemma_fetch_wrapped_chars(m);
    let p = "* 1 FETCH (RFC822 {"@;
    let d = decimal(m.len());
    let w = fetch_wrapped(m);
    let le = fetch_size_end(m);
    assert forall|k: int| 0 <= k < 19 implies w[k] == p[k] by {
        assert(w.subrange(0, 19)[k] == w[k]);
    }
    assert forall|k: int| 19 <= k < le implies is_digit(#[trigger] w[k]) by {
        assert(w.subrange(19, le)[k - 19] == w[k]);
        assert(is_digit(d[k - 19]));
    }
    assert(w[le] == '}') by {
        assert(w.subrange(le, le + 3)[0] == w[le]);
    }
    assert(w.subrange(0, 2) =~= "* "@);
    assert(occurs_at(w, "FETCH"@, 4)) by {
        assert(w.subrange(4, 9) =~= "FETCH"@);
    }
    assert forall|k: int| 0 <= k < 4 implies !occurs_at(w, "FETCH"@, k) by {
        if occurs_at(w, "FETCH"@, k) {
            assert(w.subrange(k, k + 5)[0] == w[k]);
        }
    }
    lemma_find_from_is(w, "FETCH"@, 0, 4);
    assert(occurs_at(w, "RFC822 "@, 11)) by {
        assert(w.subrange(11, 18) =~= "RFC822 "@);
    }
    lemma_find_from(w, "RFC822 "@, 0);
    assert(occurs_at(w, "{"@, 18)) by {
        assert(w.subrange(18, 19) =~= "{"@);
    }
    assert forall|k: int| 4 <= k < 18 implies !occurs_at(w, "{"@, k) by {
        if occurs_at(w, "{"@, k) {
            assert(w.subrange(k, k + 1)[0] == w[k]);
        }
    }
    lemma_find_from_is(w, "{"@, 4, 18);
    assert(occurs_at(w, "}\r\n"@, le)) by {
        assert(w.subrange(le, le + 3) == "}\r\n"@);
    }
    assert forall|k: int| 18 <= k < le implies !occurs_at(w, "}\r\n"@, k) by {
        if occurs_at(w, "}\r\n"@, k) {
            assert(w.subrange(k, k + 3)[0] == w[k]);
            if k > 18 {
                assert(is_digit(w[k]));
            }
        }
    }
    lemma_find_from_is(w, "}\r\n"@, 18, le);
    assert(d[0] != '+') by {
        assert(is_digit(d[0]));
    }
}

/// The literal of `fetch_wrapped(m)`, read with its announced size, is `m`.
#[verifier::spinoff_prover]
proof fn lemma_fetch_wrapped_literal(m: Seq<char>)
    requires
        all_ascii(m),
        fetch_wrapped(m).len() <= usize::MAX,
    ensures
        ({
            let w = fetch_wrapped(m);
            let ds = fetch_size_end(m) + 3;
            &&& ds < w.len()
            &&& literal_end(w, ds, m.len()) == Some(ds + m.len())
            &&& w.subrange(ds, ds + m.len()) == m
        }),
{
    reveal_strlit("* 1 FETCH (RFC822 {");
    reveal_strlit("}\r\n");
    reveal_strlit(")\r\n");
    lemma_fetch_wrapped_chars(m);
    let w = fetch_wrapped(m);
    let d = decimal(m.len());
    let le = fetch_size_end(m);
    let ds = le + 3;
    let n = m.len();
    assert(all_ascii(w)) by {
        assert forall|k: int| 0 <= k < w.len() implies (#[trigger] w[k] as u32) < 0x80 by {
            if k < 19 {
                assert(w.subrange(0, 19)[k] == w[k]);
            } else if k < le {
                assert(w.subrange(19, le)[k - 19] == w[k]);
                assert(is_digit(d[k - 19]));
            } else if k < ds {
                assert(w.subrange(le, ds)[k - le] == w[k]);
            } else if k < ds + n {
                assert(w.subrange(ds, ds + n)[k - ds] == w[k]);
            } else {
                assert(w.subrange(ds + n, w.len() as int)[k - ds - n] == w[k]);
            }
        }
    }
    assert(all_ascii(w.take(ds))) by {
        assert forall|i: int| 0 <= i < w.take(ds).len() implies (#[trigger] w.take(ds)[i] as u32)
            < 0x80 by {
            assert(w.take(ds)[i] == w[i]);
        }
    }
    lemma_utf8_len_ascii(w.take(ds));
    lemma_utf8_len_ascii(w);
    lemma_char_index_ascii(w, ds + n, ds);
}

/// A whole ASCII message wrapped in a FETCH response with its right size reads as the bare
/// message does (for a message that does not itself look like a FETCH response). Such a bare
/// message is always readable (`try_parse_email_body` states it), so both readings are
/// defined.
#[verifier::spinoff_prover]
pub proof fn law_fetch_wrapped_message_reads_as_bare(m: Seq<char>)
    requires
        all_ascii(m),
        !(starts_with_seq(m, "* "@) && contains_seq(m, "FETCH"@)),
        fetch_wrapped(m).len() <= usize::MAX,
    ensures
        email_body(fetch_wrapped(m)) == email_body(m),
{
    lemma_fetch_wrapped_chars(m);
    lemma_fetch_wrapped_header(m);
    lemma_fetch_wrapped_literal(m);
}

} // verus!
