//! What the IMAP side of the client decides: how a connection attempt ended, what a
//! BODYSTRUCTURE response says about a message's parts, how messages are grouped in threads,
//! and how envelope fields become stored metadata.
use vstd::prelude::*;
use crate::account::EmailMetadata;
use crate::matching::{
    group_text, lemma_matches_deep_view, regex_capture_spans, regex_compile_error, regex_error,
    regex_matches,
};
use crate::text::{
    append_all, char_index_at_byte, char_index_at_byte_exec, chars_of, copy_range, decimal,
    decimal_exec, lemma_char_index_at_byte, lines_of, lines_seq, lower_chars, lowercase,
    starts_with_seq, starts_with_str, string_of, trim_chars, trim_end_set, trim_end_set_chars,
    trim_seq, trim_start_set, trim_start_set_chars, views,
};

verus! {

/// How a connection check ended.
#[derive(Debug)]
pub enum ConnectionResult {
    Success,
    ConnectionFailed(String),
    AuthFailed(String),
    TlsFailed(String),
    Timeout(String),
}

/// The text shown for a connection check's outcome.
pub open spec fn connection_message(r: ConnectionResult) -> Seq<char> {
    match r {
        ConnectionResult::Success => "Connection successful"@,
        ConnectionResult::ConnectionFailed(m) => "Connection failed: "@ + m@,
        ConnectionResult::AuthFailed(m) => "Authentication failed: "@ + m@,
        ConnectionResult::TlsFailed(m) => "TLS error: "@ + m@,
        ConnectionResult::Timeout(m) => "Connection timed out: "@ + m@,
    }
}

/// `prefix` followed by `rest`.
pub fn concat_str(prefix: &str, rest: &str) -> (r: String)
    ensures
        r@ == prefix@ + rest@,
{
    let mut a = chars_of(prefix);
    let b = chars_of(rest);
    append_all(&mut a, b.as_slice());
    string_of(a.as_slice())
}

impl ConnectionResult {
    /// The text shown for this outcome (what `Display` prints).
    pub fn message(&self) -> (r: String)
        ensures
            r@ == connection_message(*self),
    {
        match self {
            ConnectionResult::Success => "Connection successful".to_owned(),
            ConnectionResult::ConnectionFailed(m) => concat_str("Connection failed: ", m.as_str()),
            ConnectionResult::AuthFailed(m) => concat_str("Authentication failed: ", m.as_str()),
            ConnectionResult::TlsFailed(m) => concat_str("TLS error: ", m.as_str()),
            ConnectionResult::Timeout(m) => concat_str("Connection timed out: ", m.as_str()),
        }
    }

    /// Whether the check succeeded.
    pub fn is_success(&self) -> (r: bool)
        ensures
            r == (*self is Success),
    {
        match self {
            ConnectionResult::Success => true,
            _ => false,
        }
    }
}

/// What an IMAP connection check reports: a connection failure when the server could not be
/// reached (with the connection error's text), else an authentication failure when logging
/// in failed (with the login error's text), else success.
pub fn imap_check_outcome(connected: Result<(), String>, logged_in: Result<(), String>) -> (r:
    ConnectionResult)
    ensures
        match connected {
            Err(e) => r == ConnectionResult::ConnectionFailed(e),
            Ok(_) => match logged_in {
                Err(e) => r == ConnectionResult::AuthFailed(e),
                Ok(_) => r is Success,
            },
        },
{
    match connected {
        Err(e) => ConnectionResult::ConnectionFailed(e),
        Ok(_) => match logged_in {
            Err(e) => ConnectionResult::AuthFailed(e),
            Ok(_) => ConnectionResult::Success,
        },
    }
}

/// One attachment part of a message, from its BODYSTRUCTURE.
#[derive(Debug, Clone)]
pub struct AttachmentPart {
    pub filename: String,
    pub content_type: String,
    pub size: i64,
    /// IMAP part number such as "2" or "2.1".
    pub part_number: String,
}

/// A message's body content type and its attachment parts.
#[derive(Debug, Clone)]
pub struct ParsedStructure {
    /// "text/plain" or "text/html".
    pub body_content_type: String,
    pub parts: Vec<AttachmentPart>,
}

/// An attachment part as character sequences.
pub struct PartView {
    pub filename: Seq<char>,
    pub content_type: Seq<char>,
    pub size: i64,
    pub part_number: Seq<char>,
}

/// A parsed structure as character sequences.
pub struct StructureView {
    pub body_content_type: Seq<char>,
    pub parts: Seq<PartView>,
}

impl View for AttachmentPart {
    type V = PartView;

    open spec fn view(&self) -> PartView {
        PartView {
            filename: self.filename@,
            content_type: self.content_type@,
            size: self.size,
            part_number: self.part_number@,
        }
    }
}

impl View for ParsedStructure {
    type V = StructureView;

    open spec fn view(&self) -> StructureView {
        StructureView {
            body_content_type: self.body_content_type@,
            parts: self.parts@.map_values(|p: AttachmentPart| p@),
        }
    }
}

/// A text type that is the body rather than an attachment.
pub open spec fn is_body_type(major: Seq<char>, minor: Seq<char>) -> bool {
    major == "text"@ && (minor == "plain"@ || minor == "html"@)
}

/// The body content type among the types of a structure: `text/html` if there is an HTML text
/// part, else `text/plain`.
pub open spec fn body_type_of(ts: Seq<(Seq<char>, Seq<char>)>) -> Seq<char>
    decreases ts.len(),
{
    if ts.len() == 0 {
        "text/plain"@
    } else {
        let cur = body_type_of(ts.drop_last());
        let (major, minor) = ts.last();
        if is_body_type(major, minor) {
            let full = major + "/"@ + minor;
            if full == "text/html"@ || cur == "text/plain"@ {
                full
            } else {
                cur
            }
        } else {
            cur
        }
    }
}

/// The attachment parts among the types of a structure: every type that is neither multipart
/// nor a text body, numbered from 2 in order, named by the file names in order (or
/// `attachment-N.dat` once they run out), with size 0.
pub open spec fn attachment_parts(ts: Seq<(Seq<char>, Seq<char>)>, names: Seq<Seq<char>>) -> Seq<
    PartView,
>
    decreases ts.len(),
{
    if ts.len() == 0 {
        Seq::empty()
    } else {
        let prev = attachment_parts(ts.drop_last(), names);
        let (major, minor) = ts.last();
        if major == "multipart"@ || is_body_type(major, minor) {
            prev
        } else {
            let k = prev.len();
            prev.push(
                PartView {
                    filename: if k < names.len() {
                        names[k as int]
                    } else {
                        "attachment-"@ + decimal(k + 2) + ".dat"@
                    },
                    content_type: major + "/"@ + minor,
                    size: 0,
                    part_number: decimal(k + 2),
                },
            )
        }
    }
}

/// The structure that a list of (type, subtype) pairs and file names describe.
pub open spec fn structure_of(ts: Seq<(Seq<char>, Seq<char>)>, names: Seq<Seq<char>>) -> StructureView {
    StructureView { body_content_type: body_type_of(ts), parts: attachment_parts(ts, names) }
}

/// The (type, subtype) pairs as character sequences.
pub open spec fn type_pairs(v: Seq<(String, String)>) -> Seq<(Seq<char>, Seq<char>)> {
    v.map_values(|p: (String, String)| (p.0@, p.1@))
}

/// `major/minor`.
fn slash_join(major: &Vec<char>, minor: &Vec<char>) -> (r: Vec<char>)
    ensures
        r@ == major@ + "/"@ + minor@,
{
    let mut r = copy_range(major.as_slice(), 0, major.len());
    r.push('/');
    append_all(&mut r, minor.as_slice());
    proof {
        reveal_strlit("/");
        assert(major@.subrange(0, major@.len() as int) == major@);
    }
    r
}

/// Whether the characters `v` spell out `s`.
fn chars_are(v: &Vec<char>, s: &str) -> (r: bool)
    ensures
        r == (v@ == s@),
{
    crate::mime::eq_str(v.as_slice(), s)
}

/// Builds a structure from the (type, subtype) pairs and file names a BODYSTRUCTURE holds, in
/// order: the body type, and the attachment parts numbered from 2.
pub fn build_structure(content_types: &Vec<(String, String)>, filenames: &Vec<String>) -> (r:
    ParsedStructure)
    requires
        attachment_parts(
            type_pairs(content_types@),
            views_of_strings(filenames@),
        ).len() <= u32::MAX - 2,
    ensures
        r@ == structure_of(type_pairs(content_types@), views_of_strings(filenames@)),
{
    let ghost ts = type_pairs(content_types@);
    let ghost names = views_of_strings(filenames@);
    let mut body: Vec<char> = chars_of("text/plain");
    let mut parts: Vec<AttachmentPart> = Vec::new();
    let mut part_number: u32 = 2;
    let mut i: usize = 0;
    assert(ts.take(0) == Seq::<(Seq<char>, Seq<char>)>::empty());
    while i < content_types.len()
        invariant
            ts == type_pairs(content_types@),
            names == views_of_strings(filenames@),
            attachment_parts(ts, names).len() <= u32::MAX - 2,
            i <= content_types@.len(),
            body@ == body_type_of(ts.take(i as int)),
            parts@.map_values(|p: AttachmentPart| p@) == attachment_parts(ts.take(i as int), names),
            part_number == parts@.len() + 2,
        decreases content_types.len() - i,
    {
        let major = chars_of(content_types[i].0.as_str());
        let minor = chars_of(content_types[i].1.as_str());
        assert(ts.take(i + 1).drop_last() == ts.take(i as int));
        assert(ts.take(i + 1).last() == (major@, minor@));
        let body_like = chars_are(&major, "text") && (chars_are(&minor, "plain") || chars_are(
            &minor,
            "html",
        ));
        if body_like {
            let full = slash_join(&major, &minor);
            if chars_are(&full, "text/html") || chars_are(&body, "text/plain") {
                body = full;
            }
        }
        if !chars_are(&major, "multipart") && !body_like {
            let k = parts.len();
            proof {
                lemma_attachment_parts_prefix(ts, names, i + 1);
            }
            let num = decimal_exec(part_number as u64);
            let filename = if k < filenames.len() {
                filenames[k].clone()
            } else {
                let mut f = chars_of("attachment-");
                append_all(&mut f, num.as_slice());
                let dat = chars_of(".dat");
                append_all(&mut f, dat.as_slice());
                string_of(f.as_slice())
            };
            let ct = slash_join(&major, &minor);
            let ghost old_parts = parts@;
            parts.push(
                AttachmentPart {
                    filename,
                    content_type: string_of(ct.as_slice()),
                    size: 0,
                    part_number: string_of(num.as_slice()),
                },
            );
            assert(parts@.map_values(|p: AttachmentPart| p@) =~= old_parts.map_values(
                |p: AttachmentPart| p@,
            ).push(parts@[k as int]@));
            part_number = part_number + 1;
        }
        i = i + 1;
    }
    assert(ts.take(content_types@.len() as int) == ts);
    ParsedStructure { body_content_type: string_of(body.as_slice()), parts }
}

/// Attachments found among a prefix of the types are a prefix of all attachments.
proof fn lemma_attachment_parts_prefix(
    ts: Seq<(Seq<char>, Seq<char>)>,
    names: Seq<Seq<char>>,
    i: int,
)
    requires
        0 <= i <= ts.len(),
    ensures
        attachment_parts(ts.take(i), names).len() <= attachment_parts(ts, names).len(),
    decreases ts.len() - i,
{
    if i < ts.len() {
        lemma_attachment_parts_prefix(ts, names, i + 1);
        assert(ts.take(i + 1).drop_last() == ts.take(i));
    } else {
        assert(ts.take(i) == ts);
    }
}

/// Character sequences of a list of strings.
pub open spec fn views_of_strings(v: Seq<String>) -> Seq<Seq<char>> {
    v.map_values(|s: String| s@)
}

} // verus!

verus! {

/// A `"type" "subtype"` pair in a BODYSTRUCTURE response.
pub const TYPE_SUBTYPE: &'static str = "\"(text|application|image|audio|video|multipart)\"\\s+\"([^\"]+)\"";

/// A `"filename" "name"` parameter in a BODYSTRUCTURE response.
pub const FILENAME_PARAM: &'static str = "\"filename\"\\s+\"([^\"]+)\"";

/// Every match has a group `g` that took part.
pub open spec fn all_have_group(ms: Seq<Seq<Option<(usize, usize)>>>, g: int) -> bool {
    forall|i: int| 0 <= i < ms.len() ==> g < (#[trigger] ms[i]).len() && ms[i][g] is Some
}

/// What a BODYSTRUCTURE response says about a message: its body content type and its
/// attachment parts, read from the `"type" "subtype"` pairs and `"filename"` parameters in
/// order; an error naming a pattern that does not compile. `None` where reading is undefined:
/// a match without its groups, or more attachments than a `u32` part number can count.
pub open spec fn bodystructure_of(s: Seq<char>) -> Option<Result<StructureView, Seq<char>>> {
    match regex_compile_error(TYPE_SUBTYPE@) {
        Some(e) => Some(Err("Regex error: "@ + e)),
        None => {
            let ms = regex_matches(TYPE_SUBTYPE@, s);
            if !all_have_group(ms, 1) || !all_have_group(ms, 2) {
                None
            } else {
                let ts = Seq::new(
                    ms.len(),
                    |i: int| (group_text(s, ms[i], 1), group_text(s, ms[i], 2)),
                );
                match regex_compile_error(FILENAME_PARAM@) {
                    Some(e) => Some(Err("Regex error: "@ + e)),
                    None => {
                        let fs = regex_matches(FILENAME_PARAM@, s);
                        if !all_have_group(fs, 1) {
                            None
                        } else {
                            let names = Seq::new(fs.len(), |i: int| group_text(s, fs[i], 1));
                            if attachment_parts(ts, names).len() > u32::MAX - 2 {
                                None
                            } else {
                                Some(Ok(structure_of(ts, names)))
                            }
                        }
                    },
                }
            }
        },
    }
}

/// The text of group `g` of every match.
fn group_texts(text: &[char], ms: &Vec<Vec<Option<(usize, usize)>>>, g: usize) -> (r: Option<
    Vec<String>,
>)
    requires
        crate::matching::spans_well_formed(ms.deep_view(), text@),
    ensures
        match r {
            None => !all_have_group(ms.deep_view(), g as int),
            Some(v) => all_have_group(ms.deep_view(), g as int) && views_of_strings(v@) == Seq::new(
                ms.deep_view().len(),
                |i: int| group_text(text@, ms.deep_view()[i], g as int),
            ),
        },
{
    let ghost dms = ms.deep_view();
    proof {
        lemma_matches_deep_view(*ms);
    }
    let mut out: Vec<String> = Vec::new();
    let mut i: usize = 0;
    while i < ms.len()
        invariant
            dms == ms.deep_view(),
            dms.len() == ms@.len(),
            forall|j: int| 0 <= j < ms@.len() ==> #[trigger] dms[j] == ms@[j]@,
            crate::matching::spans_well_formed(dms, text@),
            i <= ms@.len(),
            out@.len() == i,
            forall|j: int| 0 <= j < i ==> g < (#[trigger] dms[j]).len() && dms[j][g as int] is Some,
            forall|j: int|
                0 <= j < i ==> (#[trigger] out@[j])@ == group_text(text@, dms[j], g as int),
        decreases ms.len() - i,
    {
        let m = &ms[i];
        assert(dms[i as int] == m@);
        if !(g < m.len() && m[g].is_some()) {
            return None;
        }
        proof {
            crate::matching::lemma_span_facts(dms, text@, i as int, g as int);
        }
        let (a, b) = crate::matching::group_chars_exec(text, m, g);
        let t = copy_range(text, a, b);
        out.push(string_of(t.as_slice()));
        i = i + 1;
    }
    assert(views_of_strings(out@) =~= Seq::new(
        dms.len(),
        |j: int| group_text(text@, dms[j], g as int),
    ));
    Some(out)
}

/// Reads a BODYSTRUCTURE response; `None` where reading is undefined (see
/// `bodystructure_of`).
fn bodystructure_exec(s: &str) -> (r: Option<Result<ParsedStructure, String>>)
    ensures
        match r {
            None => bodystructure_of(s@) is None,
            Some(Ok(p)) => bodystructure_of(s@) == Some(Ok::<StructureView, Seq<char>>(p@)),
            Some(Err(e)) => bodystructure_of(s@) == Some(Err::<StructureView, Seq<char>>(e@)),
        },
{
    let text = chars_of(s);
    if let Some(e) = regex_error(TYPE_SUBTYPE) {
        return Some(Err(concat_str("Regex error: ", e.as_str())));
    }
    let ms = regex_capture_spans(TYPE_SUBTYPE, s);
    let majors = match group_texts(text.as_slice(), &ms, 1) {
        None => return None,
        Some(v) => v,
    };
    let minors = match group_texts(text.as_slice(), &ms, 2) {
        None => return None,
        Some(v) => v,
    };
    assert(views_of_strings(majors@).len() == majors@.len());
    assert(views_of_strings(minors@).len() == minors@.len());
    let mut types: Vec<(String, String)> = Vec::new();
    let mut i: usize = 0;
    while i < majors.len()
        invariant
            majors@.len() == minors@.len(),
            i <= majors@.len(),
            types@.len() == i,
            forall|j: int|
                0 <= j < i ==> (#[trigger] types@[j]).0@ == majors@[j]@ && types@[j].1@
                    == minors@[j]@,
        decreases majors.len() - i,
    {
        types.push((majors[i].clone(), minors[i].clone()));
        i = i + 1;
    }
    let ghost dms = ms.deep_view();
    assert(type_pairs(types@) =~= Seq::new(
        dms.len(),
        |j: int| (group_text(text@, dms[j], 1), group_text(text@, dms[j], 2)),
    )) by {
        assert forall|j: int| 0 <= j < dms.len() implies #[trigger] type_pairs(types@)[j] == (
            group_text(text@, dms[j], 1),
            group_text(text@, dms[j], 2),
        ) by {
            assert(views_of_strings(majors@)[j] == majors@[j]@);
            assert(views_of_strings(minors@)[j] == minors@[j]@);
        }
    }
    if let Some(e) = regex_error(FILENAME_PARAM) {
        return Some(Err(concat_str("Regex error: ", e.as_str())));
    }
    let fs = regex_capture_spans(FILENAME_PARAM, s);
    let names = match group_texts(text.as_slice(), &fs, 1) {
        None => return None,
        Some(v) => v,
    };
    let count = attachment_count(&types);
    proof {
        lemma_attachment_count_names(type_pairs(types@), Seq::empty(), views_of_strings(names@));
    }
    if count > (u32::MAX - 2) as usize {
        return None;
    }
    Some(Ok(build_structure(&types, &names)))
}

/// How many attachments there are does not depend on their names.
proof fn lemma_attachment_count_names(
    ts: Seq<(Seq<char>, Seq<char>)>,
    n1: Seq<Seq<char>>,
    n2: Seq<Seq<char>>,
)
    ensures
        attachment_parts(ts, n1).len() == attachment_parts(ts, n2).len(),
    decreases ts.len(),
{
    if ts.len() > 0 {
        lemma_attachment_count_names(ts.drop_last(), n1, n2);
    }
}

/// How many of the types are attachments.
fn attachment_count(types: &Vec<(String, String)>) -> (r: usize)
    ensures
        r == attachment_parts(type_pairs(types@), Seq::empty()).len(),
{
    let ghost ts = type_pairs(types@);
    let mut n: usize = 0;
    let mut i: usize = 0;
    assert(ts.take(0) == Seq::<(Seq<char>, Seq<char>)>::empty());
    while i < types.len()
        invariant
            ts == type_pairs(types@),
            i <= types@.len(),
            n == attachment_parts(ts.take(i as int), Seq::empty()).len(),
            n <= i,
        decreases types.len() - i,
    {
        let major = chars_of(types[i].0.as_str());
        let minor = chars_of(types[i].1.as_str());
        assert(ts.take(i + 1).drop_last() == ts.take(i as int));
        assert(ts.take(i + 1).last() == (major@, minor@));
        let body_like = chars_are(&major, "text") && (chars_are(&minor, "plain") || chars_are(
            &minor,
            "html",
        ));
        if !chars_are(&major, "multipart") && !body_like {
            n = n + 1;
        }
        i = i + 1;
    }
    assert(ts.take(types@.len() as int) == ts);
    n
}

} // verus!

verus! {

/// Reads a BODYSTRUCTURE response: the body content type (`text/html` if an HTML text part is
/// present, else `text/plain`) and the attachment parts, numbered from 2.
pub fn parse_bodystructure(structure_str: &str) -> (r: Result<ParsedStructure, String>)
    requires
        bodystructure_of(structure_str@) is Some,
    ensures
        match r {
            Ok(p) => bodystructure_of(structure_str@) == Some(
                Ok::<StructureView, Seq<char>>(p@),
            ),
            Err(e) => bodystructure_of(structure_str@) == Some(
                Err::<StructureView, Seq<char>>(e@),
            ),
        },
{
    match bodystructure_exec(structure_str) {
        Some(r) => r,
        None => Err(String::new()),
    }
}

/// Reads a BODYSTRUCTURE response where reading is defined; `None` where it is not (see
/// `bodystructure_of`).
pub fn try_parse_bodystructure(structure_str: &str) -> (r: Option<Result<ParsedStructure, String>>)
    ensures
        match r {
            None => bodystructure_of(structure_str@) is None,
            Some(Ok(p)) => bodystructure_of(structure_str@) == Some(
                Ok::<StructureView, Seq<char>>(p@),
            ),
            Some(Err(e)) => bodystructure_of(structure_str@) == Some(
                Err::<StructureView, Seq<char>>(e@),
            ),
        },
{
    match bodystructure_exec(structure_str) {
        None => None,
        Some(_) => Some(parse_bodystructure(structure_str)),
    }
}

/// The thread an email belongs to: its own id when it replies to nothing, else the message id
/// it replies to without its angle brackets (all leading and trailing `<`, then all leading
/// and trailing `>`).
pub open spec fn thread_id_of(email_id: Seq<char>, in_reply_to: Seq<char>) -> Seq<char> {
    if in_reply_to.len() == 0 {
        email_id
    } else {
        let t = trim_end_set(trim_start_set(in_reply_to, "<"@), "<"@);
        trim_end_set(trim_start_set(t, ">"@), ">"@)
    }
}

/// Calculates the thread id of an email from its In-Reply-To header.
pub fn calculate_thread_id(email_id: &str, in_reply_to: &str) -> (r: String)
    ensures
        r@ == thread_id_of(email_id@, in_reply_to@),
{
    let irt = chars_of(in_reply_to);
    if irt.len() == 0 {
        let id = chars_of(email_id);
        return string_of(id.as_slice());
    }
    let lt = chars_of("<");
    let gt = chars_of(">");
    let a = trim_start_set_chars(irt.as_slice(), lt.as_slice());
    let b = trim_end_set_chars(a.as_slice(), lt.as_slice());
    let c = trim_start_set_chars(b.as_slice(), gt.as_slice());
    let d = trim_end_set_chars(c.as_slice(), gt.as_slice());
    string_of(d.as_slice())
}

/// The threading headers of a header block: the value after a `message-id:` line's first
/// eleven bytes and after an `in-reply-to:` line's first twelve (each header's name and its
/// colon), each trimmed, the last such line winning (the header names matched in any case).
/// `None` where slicing a line there would fall inside a character or past its end.
pub open spec fn thread_headers_from(lines: Seq<Seq<char>>) -> Option<(Seq<char>, Seq<char>)>
    decreases lines.len(),
{
    if lines.len() == 0 {
        Some((Seq::empty(), Seq::empty()))
    } else {
        match thread_headers_from(lines.drop_last()) {
            None => None,
            Some((mid, irt)) => {
                let line = lines.last();
                let l = lowercase(line);
                if starts_with_seq(l, "message-id:"@) {
                    match char_index_at_byte(line, 11) {
                        None => None,
                        Some(k) => Some((trim_seq(line.subrange(k, line.len() as int)), irt)),
                    }
                } else if starts_with_seq(l, "in-reply-to:"@) {
                    match char_index_at_byte(line, 12) {
                        None => None,
                        Some(k) => Some((mid, trim_seq(line.subrange(k, line.len() as int)))),
                    }
                } else {
                    Some((mid, irt))
                }
            },
        }
    }
}

/// The threading headers of a header block (see `thread_headers_from`).
pub open spec fn thread_headers(text: Seq<char>) -> Option<(Seq<char>, Seq<char>)> {
    thread_headers_from(lines_seq(text))
}

fn thread_headers_exec(text: &[char]) -> (r: Option<(String, String)>)
    ensures
        match r {
            None => thread_headers(text@) is None,
            Some((m, i)) => thread_headers(text@) == Some((m@, i@)),
        },
{
    let lines = lines_of(text);
    let ghost ls = views(lines@);
    let mut mid: Vec<char> = Vec::new();
    let mut irt: Vec<char> = Vec::new();
    let mut i: usize = 0;
    assert(ls.take(0) == Seq::<Seq<char>>::empty());
    while i < lines.len()
        invariant
            ls == views(lines@),
            ls == lines_seq(text@),
            i <= lines@.len(),
            thread_headers_from(ls.take(i as int)) == Some((mid@, irt@)),
        decreases lines.len() - i,
    {
        let line = &lines[i];
        assert(ls.take(i + 1).drop_last() == ls.take(i as int));
        assert(ls.take(i + 1).last() == line@);
        let l = lower_chars(line.as_slice());
        if starts_with_str(l.as_slice(), "message-id:") {
            match char_index_at_byte_exec(line.as_slice(), 11) {
                None => {
                    proof {
                        lemma_thread_headers_none(ls, i as int);
                    }
                    return None;
                },
                Some(k) => {
                    proof {
                        lemma_char_index_at_byte(line@, 11);
                    }
                    let rest = copy_range(line.as_slice(), k, line.len());
                    mid = trim_chars(rest.as_slice());
                },
            }
        } else if starts_with_str(l.as_slice(), "in-reply-to:") {
            match char_index_at_byte_exec(line.as_slice(), 12) {
                None => {
                    proof {
                        lemma_thread_headers_none(ls, i as int);
                    }
                    return None;
                },
                Some(k) => {
                    proof {
                        lemma_char_index_at_byte(line@, 12);
                    }
                    let rest = copy_range(line.as_slice(), k, line.len());
                    irt = trim_chars(rest.as_slice());
                },
            }
        }
        i = i + 1;
    }
    assert(ls.take(lines@.len() as int) == ls);
    Some((string_of(mid.as_slice()), string_of(irt.as_slice())))
}

/// Once a line cannot be read, no longer list of lines can.
proof fn lemma_thread_headers_none(ls: Seq<Seq<char>>, k: int)
    requires
        0 <= k < ls.len(),
        thread_headers_from(ls.take(k + 1)) is None,
    ensures
        thread_headers_from(ls) is None,
    decreases ls.len(),
{
    if k + 1 < ls.len() {
        assert(ls.drop_last().take(k + 1) == ls.take(k + 1));
        lemma_thread_headers_none(ls.drop_last(), k);
    } else {
        assert(ls.take(k + 1) == ls);
    }
}

/// Reads the Message-ID and In-Reply-To headers of a header block, for threading.
pub fn parse_thread_headers(header_str: &str) -> (r: (String, String))
    requires
        thread_headers(header_str@) is Some,
    ensures
        thread_headers(header_str@) == Some((r.0@, r.1@)),
{
    let t = chars_of(header_str);
    match thread_headers_exec(t.as_slice()) {
        Some(p) => p,
        None => (String::new(), String::new()),
    }
}

/// Reads the threading headers where that is defined; `None` where slicing a line would fall
/// inside a character.
pub fn try_parse_thread_headers(header_str: &str) -> (r: Option<(String, String)>)
    ensures
        match r {
            None => thread_headers(header_str@) is None,
            Some((m, i)) => thread_headers(header_str@) == Some((m@, i@)),
        },
{
    let t = chars_of(header_str);
    match thread_headers_exec(t.as_slice()) {
        None => None,
        Some(_) => Some(parse_thread_headers(header_str)),
    }
}

/// Replies to the same message join the same thread, whatever their own ids; an email that
/// replies to nothing starts a thread of its own id.
pub proof fn law_replies_share_a_thread(a: Seq<char>, b: Seq<char>, in_reply_to: Seq<char>)
    ensures
        in_reply_to.len() > 0 ==> thread_id_of(a, in_reply_to) == thread_id_of(b, in_reply_to),
        thread_id_of(a, Seq::empty()) == a,
{
}

/// Whether some (type, subtype) pair is `text/html`.
pub open spec fn has_html_text(ts: Seq<(Seq<char>, Seq<char>)>) -> bool {
    exists|i: int| 0 <= i < ts.len() && (#[trigger] ts[i]).0 == "text"@ && ts[i].1 == "html"@
}

/// The body of a message is HTML exactly when one of its parts is `text/html`; otherwise it is
/// plain text, whatever other types occur.
pub proof fn law_body_type_prefers_html(ts: Seq<(Seq<char>, Seq<char>)>)
    ensures
        body_type_of(ts) == if has_html_text(ts) {
            "text/html"@
        } else {
            "text/plain"@
        },
    decreases ts.len(),
{
    reveal_strlit("text/html");
    reveal_strlit("text/plain");
    reveal_strlit("text");
    reveal_strlit("html");
    reveal_strlit("plain");
    reveal_strlit("/");
    if ts.len() > 0 {
        let prefix = ts.drop_last();
        law_body_type_prefers_html(prefix);
        let (major, minor) = ts.last();
        assert(ts[ts.len() - 1] == ts.last());
        assert(has_html_text(prefix) ==> has_html_text(ts)) by {
            if has_html_text(prefix) {
                let i = choose|i: int|
                    0 <= i < prefix.len() && (#[trigger] prefix[i]).0 == "text"@ && prefix[i].1
                        == "html"@;
                assert(ts[i] == prefix[i]);
            }
        }
        assert(has_html_text(ts) && !has_html_text(prefix) ==> major == "text"@ && minor
            == "html"@) by {
            if has_html_text(ts) && !has_html_text(prefix) {
                let i = choose|i: int|
                    0 <= i < ts.len() && (#[trigger] ts[i]).0 == "text"@ && ts[i].1 == "html"@;
                if i < ts.len() - 1 {
                    assert(prefix[i] == ts[i]);
                }
            }
        }
        if is_body_type(major, minor) {
            if minor == "html"@ {
                assert(major + "/"@ + minor =~= "text/html"@);
            } else {
                assert(major + "/"@ + minor =~= "text/plain"@);
                assert("text/plain"@ != "text/html"@) by {
                    assert("text/plain"@[5] != "text/html"@[5]);
                }
            }
        }
    }
}

/// Attachment parts are numbered 2, 3, ... in the order they occur (part 1 being the text
/// body).
pub proof fn law_parts_numbered_from_two(
    ts: Seq<(Seq<char>, Seq<char>)>,
    names: Seq<Seq<char>>,
    k: int,
)
    requires
        0 <= k < attachment_parts(ts, names).len(),
    ensures
        attachment_parts(ts, names)[k].part_number == decimal((k + 2) as nat),
    decreases ts.len(),
{
    if ts.len() > 0 {
        let prev = attachment_parts(ts.drop_last(), names);
        if k < prev.len() {
            law_parts_numbered_from_two(ts.drop_last(), names, k);
        }
    }
}

/// Attachment parts take the file names in the order they were given: the k-th part is named by
/// the k-th file name, and once the names run out, by `attachment-N.dat` with its part number N.
pub proof fn law_parts_named_in_order(
    ts: Seq<(Seq<char>, Seq<char>)>,
    names: Seq<Seq<char>>,
    k: int,
)
    requires
        0 <= k < attachment_parts(ts, names).len(),
    ensures
        k < names.len() ==> attachment_parts(ts, names)[k].filename == names[k],
        k >= names.len() ==> attachment_parts(ts, names)[k].filename == "attachment-"@ + decimal(
            (k + 2) as nat,
        ) + ".dat"@,
    decreases ts.len(),
{
    if ts.len() > 0 {
        let prev = attachment_parts(ts.drop_last(), names);
        if k < prev.len() {
            law_parts_named_in_order(ts.drop_last(), names, k);
        }
    }
}

} // verus!
