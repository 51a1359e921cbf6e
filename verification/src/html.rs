//! Turning HTML mail into text for the e-ink screen, and cleaning HTML before it is shown.
use vstd::prelude::*;
use crate::text::{
    chars_of, contains_seq, contains_str, copy_range, join_seq, lines_seq, lower_chars, lowercase,
    replace_chars, replace_seq, string_of, trim_chars, trim_end_each, trim_line_ends, trim_seq,
    append_all, is_ws, lemma_trim_seq_ends, lemma_trim_seq_contains,
};
use crate::matching::{
    group_chars_exec, group_text, lemma_matches_deep_view, regex_capture_spans,
    regex_compile_error, regex_error, regex_matches, regex_replace_all, regex_replaced, splice,
    splice_exec,
};

verus! {

/// `<style>` blocks.
pub const STYLE_BLOCK: &'static str = "(?is)<style[^>]*>.*?</style>";

/// `<script>` blocks.
pub const SCRIPT_BLOCK: &'static str = "(?is)<script[^>]*>.*?</script>";

/// `<iframe>` blocks.
pub const IFRAME_BLOCK: &'static str = "(?is)<iframe[^>]*>.*?</iframe>";

/// `<object>` blocks.
pub const OBJECT_BLOCK: &'static str = "(?is)<object[^>]*>.*?</object>";

/// `<embed>` tags.
pub const EMBED_TAG: &'static str = "(?is)<embed[^>]*>";

/// `<applet>` blocks.
pub const APPLET_BLOCK: &'static str = "(?is)<applet[^>]*>.*?</applet>";

/// `<link>` tags that pull in a style sheet.
pub const STYLESHEET_LINK: &'static str = "(?i)<link[^>]*stylesheet[^>]*>";

/// A `style` attribute, its value in group 1 (double quotes) or group 2 (single quotes).
pub const STYLE_ATTR: &'static str = "(?i)\\sstyle\\s*=\\s*\"([^\"]*)\"|\\sstyle\\s*=\\s*'([^']*)'";

/// A `color` declaration in an inline style.
pub const COLOR_DECL: &'static str = "(?i)color\\s*:\\s*[^;]+";

/// `<br>` in its spellings.
pub const LINE_BREAK: &'static str = "(?i)<br\\s*/?\\s*>";

/// The closing tag of a block element.
pub const BLOCK_CLOSE: &'static str = "(?i)</(p|div|h[1-6]|li|tr|blockquote)>";

/// The opening tag of a block element.
pub const BLOCK_OPEN: &'static str = "(?i)<(p|div|h[1-6]|li|tr|blockquote)[^>]*>";

/// Any tag.
pub const ANY_TAG: &'static str = "<[^>]*>";

/// Three or more newlines in a row.
pub const BLANK_LINES: &'static str = "\\n{3,}";

/// Every pattern that the e-ink conversion uses compiles.
pub open spec fn eink_patterns_compile() -> bool {
    &&& regex_compile_error(STYLE_BLOCK@) is None
    &&& regex_compile_error(SCRIPT_BLOCK@) is None
    &&& regex_compile_error(LINE_BREAK@) is None
    &&& regex_compile_error(BLOCK_CLOSE@) is None
    &&& regex_compile_error(BLOCK_OPEN@) is None
    &&& regex_compile_error(ANY_TAG@) is None
    &&& regex_compile_error(BLANK_LINES@) is None
}

/// HTML as lines of text, before blank lines are collapsed: style and script blocks removed;
/// the common entities decoded (`&lt;` and `&gt;` held aside as `\u{2039}` and `\u{203A}`
/// until the tags are gone); `<br>` and block tags made line breaks; other tags removed;
/// trailing white space dropped from every line.
pub open spec fn eink_lines(html: Seq<char>) -> Seq<char> {
    let t = regex_replaced(STYLE_BLOCK@, html, ""@);
    let t = regex_replaced(SCRIPT_BLOCK@, t, ""@);
    let t = replace_seq(t, "&amp;"@, "&"@);
    let t = replace_seq(t, "&lt;"@, "\u{2039}"@);
    let t = replace_seq(t, "&gt;"@, "\u{203A}"@);
    let t = replace_seq(t, "&nbsp;"@, " "@);
    let t = replace_seq(t, "&quot;"@, "\""@);
    let t = replace_seq(t, "&#39;"@, "'"@);
    let t = replace_seq(t, "&apos;"@, "'"@);
    let t = regex_replaced(LINE_BREAK@, t, "\n"@);
    let t = regex_replaced(BLOCK_CLOSE@, t, "\n"@);
    let t = regex_replaced(BLOCK_OPEN@, t, "\n"@);
    let t = regex_replaced(ANY_TAG@, t, ""@);
    let t = replace_seq(t, "\u{2039}"@, "<"@);
    let t = replace_seq(t, "\u{203A}"@, ">"@);
    join_seq(trim_end_each(lines_seq(t)), "\n"@)
}

/// The e-ink lines with every run of three or more newlines made two. As the lines were
/// trimmed first, lines that held only white space are empty here and collapse too.
pub open spec fn eink_collapsed(html: Seq<char>) -> Seq<char> {
    regex_replaced(BLANK_LINES@, eink_lines(html), "\n\n"@)
}

/// HTML as text for the e-ink screen: the collapsed lines, trimmed as a whole.
pub open spec fn eink_text(html: Seq<char>) -> Seq<char> {
    trim_seq(eink_collapsed(html))
}

/// The e-ink text neither starts nor ends with white space.
pub proof fn law_eink_text_is_trimmed(html: Seq<char>)
    ensures
        ({
            let t = eink_text(html);
            t.len() == 0 || (!is_ws(t[0]) && !is_ws(t.last()))
        }),
{
    lemma_trim_seq_ends(eink_collapsed(html));
}

/// The e-ink text holds no three newlines in a row whenever the collapsing step left none
/// (what that step's pattern matches is the regex crate's): trimming the whole adds none.
pub proof fn law_eink_text_has_no_three_newlines(html: Seq<char>)
    requires
        !contains_seq(eink_collapsed(html), "\n\n\n"@),
    ensures
        !contains_seq(eink_text(html), "\n\n\n"@),
{
    lemma_trim_seq_contains(eink_collapsed(html), "\n\n\n"@);
}

/// Converts an HTML mail body to plain text for the e-ink screen.
pub fn html_to_eink(html: &str) -> (r: String)
    requires
        eink_patterns_compile(),
    ensures
        r@ == eink_text(html@),
{
    proof {
        reveal_strlit("&amp;");
        reveal_strlit("&lt;");
        reveal_strlit("&gt;");
        reveal_strlit("&nbsp;");
        reveal_strlit("&quot;");
        reveal_strlit("&#39;");
        reveal_strlit("&apos;");
        reveal_strlit("\u{2039}");
        reveal_strlit("\u{203A}");
    }
    let t = chars_of(html);
    let t = regex_replace_all(STYLE_BLOCK, t.as_slice(), "");
    let t = regex_replace_all(SCRIPT_BLOCK, t.as_slice(), "");
    let t = replace_chars(t.as_slice(), "&amp;", "&");
    let t = replace_chars(t.as_slice(), "&lt;", "\u{2039}");
    let t = replace_chars(t.as_slice(), "&gt;", "\u{203A}");
    let t = replace_chars(t.as_slice(), "&nbsp;", " ");
    let t = replace_chars(t.as_slice(), "&quot;", "\"");
    let t = replace_chars(t.as_slice(), "&#39;", "'");
    let t = replace_chars(t.as_slice(), "&apos;", "'");
    let t = regex_replace_all(LINE_BREAK, t.as_slice(), "\n");
    let t = regex_replace_all(BLOCK_CLOSE, t.as_slice(), "\n");
    let t = regex_replace_all(BLOCK_OPEN, t.as_slice(), "\n");
    let t = regex_replace_all(ANY_TAG, t.as_slice(), "");
    let t = replace_chars(t.as_slice(), "\u{2039}", "<");
    let t = replace_chars(t.as_slice(), "\u{203A}", ">");
    let t = trim_line_ends(t.as_slice());
    let t = regex_replace_all(BLANK_LINES, t.as_slice(), "\n\n");
    let t = trim_chars(t.as_slice());
    string_of(t.as_slice())
}

/// Whether every pattern of the e-ink conversion compiles.
pub fn eink_patterns_ok() -> (r: bool)
    ensures
        r == eink_patterns_compile(),
{
    regex_error(STYLE_BLOCK).is_none() && regex_error(SCRIPT_BLOCK).is_none() && regex_error(
        LINE_BREAK,
    ).is_none() && regex_error(BLOCK_CLOSE).is_none() && regex_error(BLOCK_OPEN).is_none()
        && regex_error(ANY_TAG).is_none() && regex_error(BLANK_LINES).is_none()
}

/// Converts an HTML mail body to plain text for the e-ink screen, or `None` if one of the
/// conversion's patterns does not compile.
pub fn try_html_to_eink(html: &str) -> (r: Option<String>)
    ensures
        match r {
            Some(t) => eink_patterns_compile() && t@ == eink_text(html@),
            None => !eink_patterns_compile(),
        },
{
    if eink_patterns_ok() {
        Some(html_to_eink(html))
    } else {
        None
    }
}

/// No occurrence of `f` in `t`: replacing it changes nothing.
proof fn lemma_replace_absent(t: Seq<char>, f: Seq<char>, to: Seq<char>)
    requires
        f.len() > 0,
        forall|j: int| 0 <= j < t.len() ==> !crate::text::occurs_at(t, f, j),
    ensures
        replace_seq(t, f, to) == t,
{
    crate::text::lemma_find_from(t, f, 0);
    assert(t.subrange(0, t.len() as int) =~= t);
}

/// Where `t` holds `f[0]` nowhere, replacing `f` changes nothing.
proof fn lemma_replace_absent_first(t: Seq<char>, f: Seq<char>, to: Seq<char>)
    requires
        f.len() > 0,
        forall|j: int| 0 <= j < t.len() ==> t[j] != f[0],
    ensures
        replace_seq(t, f, to) == t,
{
    assert forall|j: int| 0 <= j < t.len() implies !crate::text::occurs_at(t, f, j) by {
        if crate::text::occurs_at(t, f, j) {
            assert(t.subrange(j, j + f.len())[0] == t[j]);
        }
    }
    lemma_replace_absent(t, f, to);
}

/// An entity `e` (an `&` followed by no other `&`) standing once between text without `&` is
/// replaced by `c`.
proof fn lemma_entity_replaced(a: Seq<char>, e: Seq<char>, c: Seq<char>, b: Seq<char>)
    requires
        e.len() > 0,
        e[0] == '&',
        forall|i: int| 1 <= i < e.len() ==> e[i] != '&',
        forall|i: int| 0 <= i < a.len() ==> a[i] != '&',
        forall|i: int| 0 <= i < b.len() ==> b[i] != '&',
    ensures
        replace_seq(a + e + b, e, c) == a + c + b,
{
    let t = a + e + b;
    let k = a.len() as int;
    let m = k + e.len();
    assert(t.subrange(k, m) =~= e);
    crate::text::lemma_find_from(t, e, 0);
    match crate::text::find_from(t, e, 0) {
        Some(i) => {
            if i < k {
                assert(t.subrange(i, i + e.len())[0] == t[i]);
                assert(t[i] == a[i]);
            }
        },
        None => {},
    }
    assert(crate::text::occurs_at(t, e, k));
    assert(crate::text::find_from(t, e, 0) == Some(k));
    crate::text::lemma_find_from(t, e, m);
    match crate::text::find_from(t, e, m) {
        Some(i) => {
            assert(t.subrange(i, i + e.len())[0] == t[i]);
            assert(t[i] == b[i - m]);
        },
        None => {},
    }
    assert(crate::text::replace_from(t, e, c, m) == t.subrange(m, t.len() as int));
    assert(t.subrange(0, k) =~= a);
    assert(t.subrange(m, t.len() as int) =~= b);
}

/// Before its own step, an entity `e` between text without `&` is left alone by the step of
/// another entity `f` that differs from it in its second or third character.
proof fn lemma_other_entity_kept(a: Seq<char>, e: Seq<char>, b: Seq<char>, f: Seq<char>, to: Seq<char>)
    requires
        e.len() >= 3,
        f.len() >= 3,
        e[0] == '&',
        f[0] == '&',
        e[1] != f[1] || e[2] != f[2],
        forall|i: int| 1 <= i < e.len() ==> e[i] != '&',
        forall|i: int| 0 <= i < a.len() ==> a[i] != '&',
        forall|i: int| 0 <= i < b.len() ==> b[i] != '&',
    ensures
        replace_seq(a + e + b, f, to) == a + e + b,
{
    let t = a + e + b;
    let k = a.len() as int;
    assert forall|j: int| 0 <= j < t.len() implies !crate::text::occurs_at(t, f, j) by {
        if crate::text::occurs_at(t, f, j) {
            let w = t.subrange(j, j + f.len());
            assert(w[0] == t[j] && w[1] == t[j + 1] && w[2] == t[j + 2]);
            if j < k {
                assert(t[j] == a[j]);
            } else if j > k && j < k + e.len() {
                assert(t[j] == e[j - k]);
            } else if j >= k + e.len() {
                assert(t[j] == b[j - k - e.len()]);
            } else {
                assert(t[k + 1] == e[1] && t[k + 2] == e[2]);
            }
        }
    }
    lemma_replace_absent(t, f, to);
}

/// After the entity is decoded to the single character `c`, the step of any entity `f` (an
/// `&` first, a `;` last) changes nothing, as long as an `&` that `c` brings back is followed
/// by no `;`.
proof fn lemma_entity_kept_after(a: Seq<char>, c: Seq<char>, b: Seq<char>, f: Seq<char>, to: Seq<char>)
    requires
        c.len() == 1,
        f.len() >= 2,
        f[0] == '&',
        f.last() == ';',
        c[0] == '&' ==> forall|i: int| 0 <= i < b.len() ==> b[i] != ';',
        forall|i: int| 0 <= i < a.len() ==> a[i] != '&',
        forall|i: int| 0 <= i < b.len() ==> b[i] != '&',
    ensures
        replace_seq(a + c + b, f, to) == a + c + b,
{
    let t = a + c + b;
    let k = a.len() as int;
    assert forall|j: int| 0 <= j < t.len() implies !crate::text::occurs_at(t, f, j) by {
        if crate::text::occurs_at(t, f, j) {
            let w = t.subrange(j, j + f.len());
            assert(w[0] == t[j]);
            assert(w[f.len() - 1] == t[j + f.len() - 1]);
            if j < k {
                assert(t[j] == a[j]);
            } else if j > k {
                assert(t[j] == b[j - k - 1]);
            } else {
                assert(t[k] == c[0]);
                assert(t[k + f.len() - 1] == b[f.len() - 2]);
            }
        }
    }
    lemma_replace_absent(t, f, to);
}

/// A pattern with no match leaves the text as it is.
proof fn lemma_regex_no_match(pattern: Seq<char>, t: Seq<char>, rep: Seq<char>)
    requires
        regex_matches(pattern, t).len() == 0,
    ensures
        regex_replaced(pattern, t, rep) == t,
{
    assert(t.subrange(0, t.len() as int) =~= t);
}

/// The e-ink text decodes the common entities: text `a` and `b` around one of `&amp;`,
/// `&nbsp;`, `&quot;`, `&#39;` and `&apos;` comes out with the entity's character between them,
/// where `a` and `b` hold no `&`, no line break and none of the two characters that stand in
/// for `&lt;` and `&gt;`, begin and end without white space, and (after `&amp;`) `b` holds no
/// `;` that would make the decoded `&` start another entity. What the patterns match is the
/// regex crate's: the statement holds where the tag and block patterns match nothing in the
/// HTML and in the decoded text.
pub proof fn law_eink_decodes_entities(a: Seq<char>, e: Seq<char>, c: Seq<char>, b: Seq<char>)
    requires
        (e == "&amp;"@ && c == "&"@) || (e == "&nbsp;"@ && c == " "@) || (e == "&quot;"@ && c
            == "\""@) || (e == "&#39;"@ && c == "'"@) || (e == "&apos;"@ && c == "'"@),
        a.len() > 0,
        b.len() > 0,
        !is_ws(a[0]),
        !is_ws(b.last()),
        forall|i: int|
            0 <= i < a.len() ==> a[i] != '&' && a[i] != '\n' && a[i] != '\u{2039}' && a[i]
                != '\u{203A}',
        forall|i: int|
            0 <= i < b.len() ==> b[i] != '&' && b[i] != '\n' && b[i] != '\u{2039}' && b[i]
                != '\u{203A}',
        e == "&amp;"@ ==> forall|i: int| 0 <= i < b.len() ==> b[i] != ';',
        regex_matches(STYLE_BLOCK@, a + e + b).len() == 0,
        regex_matches(SCRIPT_BLOCK@, a + e + b).len() == 0,
        regex_matches(LINE_BREAK@, a + c + b).len() == 0,
        regex_matches(BLOCK_CLOSE@, a + c + b).len() == 0,
        regex_matches(BLOCK_OPEN@, a + c + b).len() == 0,
        regex_matches(ANY_TAG@, a + c + b).len() == 0,
        regex_matches(BLANK_LINES@, a + c + b).len() == 0,
    ensures
        eink_text(a + e + b) == a + c + b,
{
    reveal_strlit("&amp;");
    reveal_strlit("&lt;");
    reveal_strlit("&gt;");
    reveal_strlit("&nbsp;");
    reveal_strlit("&quot;");
    reveal_strlit("&#39;");
    reveal_strlit("&apos;");
    reveal_strlit("&");
    reveal_strlit("\u{2039}");
    reveal_strlit("\u{203A}");
    reveal_strlit(" ");
    reveal_strlit("\"");
    reveal_strlit("'");
    reveal_strlit("<");
    reveal_strlit(">");
    reveal_strlit("\n");
    reveal_strlit("");
    assert("&nbsp;"@[1] == 'n' && "&quot;"@[1] == 'q' && "&apos;"@[1] == 'a');
    assert("&amp;"@.len() == 5 && "&#39;"@.len() == 5 && "&apos;"@.len() == 6);
    assert("&nbsp;"@ != "&quot;"@ && "&nbsp;"@ != "&apos;"@ && "&quot;"@ != "&apos;"@);
    let t0 = a + e + b;
    let d = a + c + b;
    let k = a.len() as int;
    lemma_regex_no_match(STYLE_BLOCK@, t0, ""@);
    lemma_regex_no_match(SCRIPT_BLOCK@, t0, ""@);
    if e == "&amp;"@ {
        assert(e == "&amp;"@ && c == "&"@);
        lemma_entity_replaced(a, e, c, b);
        lemma_entity_kept_after(a, c, b, "&lt;"@, "\u{2039}"@);
        lemma_entity_kept_after(a, c, b, "&gt;"@, "\u{203A}"@);
        lemma_entity_kept_after(a, c, b, "&nbsp;"@, " "@);
        lemma_entity_kept_after(a, c, b, "&quot;"@, "\""@);
        lemma_entity_kept_after(a, c, b, "&#39;"@, "'"@);
        lemma_entity_kept_after(a, c, b, "&apos;"@, "'"@);
    } else if e == "&nbsp;"@ {
        assert(e == "&nbsp;"@ && c == " "@);
        lemma_other_entity_kept(a, e, b, "&amp;"@, "&"@);
        lemma_other_entity_kept(a, e, b, "&lt;"@, "\u{2039}"@);
        lemma_other_entity_kept(a, e, b, "&gt;"@, "\u{203A}"@);
        lemma_entity_replaced(a, e, c, b);
        lemma_entity_kept_after(a, c, b, "&quot;"@, "\""@);
        lemma_entity_kept_after(a, c, b, "&#39;"@, "'"@);
        lemma_entity_kept_after(a, c, b, "&apos;"@, "'"@);
    } else if e == "&quot;"@ {
        assert(e == "&quot;"@ && c == "\""@);
        lemma_other_entity_kept(a, e, b, "&amp;"@, "&"@);
        lemma_other_entity_kept(a, e, b, "&lt;"@, "\u{2039}"@);
        lemma_other_entity_kept(a, e, b, "&gt;"@, "\u{203A}"@);
        lemma_other_entity_kept(a, e, b, "&nbsp;"@, " "@);
        lemma_entity_replaced(a, e, c, b);
        lemma_entity_kept_after(a, c, b, "&#39;"@, "'"@);
        lemma_entity_kept_after(a, c, b, "&apos;"@, "'"@);
    } else if e == "&#39;"@ {
        assert(e == "&#39;"@ && c == "'"@);
        lemma_other_entity_kept(a, e, b, "&amp;"@, "&"@);
        lemma_other_entity_kept(a, e, b, "&lt;"@, "\u{2039}"@);
        lemma_other_entity_kept(a, e, b, "&gt;"@, "\u{203A}"@);
        lemma_other_entity_kept(a, e, b, "&nbsp;"@, " "@);
        lemma_other_entity_kept(a, e, b, "&quot;"@, "\""@);
        lemma_entity_replaced(a, e, c, b);
        lemma_entity_kept_after(a, c, b, "&apos;"@, "'"@);
    } else {
        assert(e == "&apos;"@ && c == "'"@);
        lemma_other_entity_kept(a, e, b, "&amp;"@, "&"@);
        lemma_other_entity_kept(a, e, b, "&lt;"@, "\u{2039}"@);
        lemma_other_entity_kept(a, e, b, "&gt;"@, "\u{203A}"@);
        lemma_other_entity_kept(a, e, b, "&nbsp;"@, " "@);
        lemma_other_entity_kept(a, e, b, "&quot;"@, "\""@);
        lemma_other_entity_kept(a, e, b, "&#39;"@, "'"@);
        lemma_entity_replaced(a, e, c, b);
    }
    let t = replace_seq(t0, "&amp;"@, "&"@);
    let t = replace_seq(t, "&lt;"@, "\u{2039}"@);
    let t = replace_seq(t, "&gt;"@, "\u{203A}"@);
    let t = replace_seq(t, "&nbsp;"@, " "@);
    let t = replace_seq(t, "&quot;"@, "\""@);
    let t = replace_seq(t, "&#39;"@, "'"@);
    let t = replace_seq(t, "&apos;"@, "'"@);
    assert(t == d);
    assert(d[k] == c[0]);
    lemma_regex_no_match(LINE_BREAK@, d, "\n"@);
    lemma_regex_no_match(BLOCK_CLOSE@, d, "\n"@);
    lemma_regex_no_match(BLOCK_OPEN@, d, "\n"@);
    lemma_regex_no_match(ANY_TAG@, d, ""@);
    assert forall|j: int| 0 <= j < d.len() implies d[j] != '\u{2039}' && d[j] != '\u{203A}'
        && d[j] != '\n' by {
        if j < k {
            assert(d[j] == a[j]);
        } else if j > k {
            assert(d[j] == b[j - k - 1]);
        }
    }
    lemma_replace_absent_first(d, "\u{2039}"@, "<"@);
    lemma_replace_absent_first(d, "\u{203A}"@, ">"@);
    crate::text::lemma_find_from(d, seq!['\n'], 0);
    match crate::text::find_from(d, seq!['\n'], 0) {
        Some(i) => {
            assert(d.subrange(i, i + 1)[0] == d[i]);
        },
        None => {},
    }
    assert(d.subrange(0, d.len() as int) =~= d);
    assert(lines_seq(d) == seq![d]);
    assert(d.last() == b.last());
    assert(d[0] == a[0]);
    assert(crate::text::trim_end_seq(d) == d);
    assert(trim_end_each(seq![d]) =~= seq![d]);
    assert(crate::text::join_seq(seq![d], "\n"@) == d);
    assert(eink_lines(t0) == d);
    lemma_regex_no_match(BLANK_LINES@, d, "\n\n"@);
    assert(crate::text::trim_start_seq(d) == d);
}

} // verus!

verus! {

/// `style` unchanged, unless it mentions white (`white`, `#fff`, in any case): then every
/// `color` declaration in it is made `color:#222` so that text stays dark on paper.
pub open spec fn fixed_style(style: Seq<char>) -> Seq<char> {
    let l = lowercase(style);
    if contains_seq(l, "white"@) || contains_seq(l, "#fff"@) || contains_seq(l, "#ffffff"@) {
        regex_replaced(COLOR_DECL@, style, "color:#222"@)
    } else {
        style
    }
}

/// Darkens the colours of an inline style that mentions white.
pub fn fix_inline_style(style: &str) -> (r: String)
    requires
        regex_compile_error(COLOR_DECL@) is None,
    ensures
        r@ == fixed_style(style@),
{
    let s = chars_of(style);
    let l = lower_chars(s.as_slice());
    if contains_str(l.as_slice(), "white") || contains_str(l.as_slice(), "#fff") || contains_str(
        l.as_slice(),
        "#ffffff",
    ) {
        let t = regex_replace_all(COLOR_DECL, s.as_slice(), "color:#222");
        string_of(t.as_slice())
    } else {
        string_of(s.as_slice())
    }
}

/// Every pattern that cleaning HTML uses compiles.
pub open spec fn sanitize_patterns_compile() -> bool {
    &&& regex_compile_error(SCRIPT_BLOCK@) is None
    &&& regex_compile_error(IFRAME_BLOCK@) is None
    &&& regex_compile_error(OBJECT_BLOCK@) is None
    &&& regex_compile_error(EMBED_TAG@) is None
    &&& regex_compile_error(APPLET_BLOCK@) is None
    &&& regex_compile_error(STYLE_BLOCK@) is None
    &&& regex_compile_error(STYLESHEET_LINK@) is None
    &&& regex_compile_error(STYLE_ATTR@) is None
    &&& regex_compile_error(COLOR_DECL@) is None
}

/// The value of a `style` attribute match: its double-quoted group, else its single-quoted
/// one, else nothing.
pub open spec fn style_value(text: Seq<char>, m: Seq<Option<(usize, usize)>>) -> Seq<char> {
    if 1 < m.len() && m[1] is Some {
        group_text(text, m, 1)
    } else {
        group_text(text, m, 2)
    }
}

/// What a `style` attribute match is replaced by: the attribute again, double-quoted, its
/// value fixed.
pub open spec fn style_attr_rewrite(text: Seq<char>, m: Seq<Option<(usize, usize)>>) -> Seq<char> {
    " style=\""@ + fixed_style(style_value(text, m)) + "\""@
}

/// `text` with every `style` attribute rewritten.
pub open spec fn styles_fixed(text: Seq<char>) -> Seq<char> {
    let ms = regex_matches(STYLE_ATTR@, text);
    splice(text, ms, Seq::new(ms.len(), |i: int| style_attr_rewrite(text, ms[i])))
}

/// HTML ready for the reader: script, iframe, object, embed, applet and style blocks and
/// style-sheet links removed, and inline styles that mention white darkened.
pub open spec fn sanitized(html: Seq<char>) -> Seq<char> {
    let t = regex_replaced(SCRIPT_BLOCK@, html, ""@);
    let t = regex_replaced(IFRAME_BLOCK@, t, ""@);
    let t = regex_replaced(OBJECT_BLOCK@, t, ""@);
    let t = regex_replaced(EMBED_TAG@, t, ""@);
    let t = regex_replaced(APPLET_BLOCK@, t, ""@);
    let t = regex_replaced(STYLE_BLOCK@, t, ""@);
    let t = regex_replaced(STYLESHEET_LINK@, t, ""@);
    styles_fixed(t)
}

/// The text of group `g` of a match, empty when the group did not take part.
fn group_text_exec(text: &[char], m: &Vec<Option<(usize, usize)>>, g: usize) -> (r: Vec<char>)
    requires
        forall|h: int|
            0 <= h < m@.len() && (#[trigger] m@[h]) is Some ==> {
                let (a, b) = m@[h].unwrap();
                &&& a <= b
                &&& crate::text::char_index_at_byte(text@, a as int) is Some
                &&& crate::text::char_index_at_byte(text@, b as int) is Some
            },
    ensures
        r@ == group_text(text@, m@, g as int),
{
    if g < m.len() && m[g].is_some() {
        let (a, b) = group_chars_exec(text, m, g);
        copy_range(text, a, b)
    } else {
        Vec::new()
    }
}

/// `text` with every `style` attribute rewritten.
fn fix_style_attrs(text: &[char]) -> (r: Vec<char>)
    requires
        regex_compile_error(STYLE_ATTR@) is None,
        regex_compile_error(COLOR_DECL@) is None,
    ensures
        r@ == styles_fixed(text@),
{
    let t = string_of(text);
    let ms = regex_capture_spans(STYLE_ATTR, t.as_str());
    let ghost dms = ms.deep_view();
    proof {
        lemma_matches_deep_view(ms);
    }
    let mut reps: Vec<Vec<char>> = Vec::new();
    let mut i: usize = 0;
    while i < ms.len()
        invariant
            dms == ms.deep_view(),
            dms.len() == ms@.len(),
            forall|j: int| 0 <= j < ms@.len() ==> #[trigger] dms[j] == ms@[j]@,
            crate::matching::spans_well_formed(dms, text@),
            regex_compile_error(COLOR_DECL@) is None,
            i <= ms@.len(),
            reps@.len() == i,
            forall|j: int| 0 <= j < i ==> (#[trigger] reps@[j])@ == style_attr_rewrite(text@, dms[j]),
        decreases ms.len() - i,
    {
        let m = &ms[i];
        assert(dms[i as int] == m@);
        assert forall|h: int| 0 <= h < m@.len() && (#[trigger] m@[h]) is Some implies {
            let (a, b) = m@[h].unwrap();
            &&& a <= b
            &&& crate::text::char_index_at_byte(text@, a as int) is Some
            &&& crate::text::char_index_at_byte(text@, b as int) is Some
        } by {
            assert(dms[i as int][h] == m@[h]);
            crate::matching::lemma_span_facts(dms, text@, i as int, h);
        }
        let v = if m.len() > 1 && m[1].is_some() {
            group_text_exec(text, m, 1)
        } else {
            group_text_exec(text, m, 2)
        };
        let vs = string_of(v.as_slice());
        let fixed = fix_inline_style(vs.as_str());
        let fc = chars_of(fixed.as_str());
        let mut rep = chars_of(" style=\"");
        append_all(&mut rep, fc.as_slice());
        rep.push('"');
        proof {
            reveal_strlit("\"");
            assert("\""@ == seq!['"']);
        }
        assert(rep@ == " style=\""@ + fixed_style(style_value(text@, dms[i as int])) + "\""@);
        reps.push(rep);
        i = i + 1;
    }
    let r = splice_exec(text, &ms, &reps);
    assert(reps@.map_values(|v: Vec<char>| v@) =~= Seq::new(
        dms.len(),
        |j: int| style_attr_rewrite(text@, dms[j]),
    ));
    r
}

/// Cleans an HTML mail body for the reader: removes active content and style sheets and
/// darkens inline styles that would be white on paper.
pub fn sanitize_html(html: &str) -> (r: String)
    requires
        sanitize_patterns_compile(),
    ensures
        r@ == sanitized(html@),
{
    let t = chars_of(html);
    let t = regex_replace_all(SCRIPT_BLOCK, t.as_slice(), "");
    let t = regex_replace_all(IFRAME_BLOCK, t.as_slice(), "");
    let t = regex_replace_all(OBJECT_BLOCK, t.as_slice(), "");
    let t = regex_replace_all(EMBED_TAG, t.as_slice(), "");
    let t = regex_replace_all(APPLET_BLOCK, t.as_slice(), "");
    let t = regex_replace_all(STYLE_BLOCK, t.as_slice(), "");
    let t = regex_replace_all(STYLESHEET_LINK, t.as_slice(), "");
    let t = fix_style_attrs(t.as_slice());
    string_of(t.as_slice())
}

/// Whether every pattern of the HTML cleaning compiles.
pub fn sanitize_patterns_ok() -> (r: bool)
    ensures
        r == sanitize_patterns_compile(),
{
    regex_error(SCRIPT_BLOCK).is_none() && regex_error(IFRAME_BLOCK).is_none() && regex_error(
        OBJECT_BLOCK,
    ).is_none() && regex_error(EMBED_TAG).is_none() && regex_error(APPLET_BLOCK).is_none()
        && regex_error(STYLE_BLOCK).is_none() && regex_error(STYLESHEET_LINK).is_none()
        && regex_error(STYLE_ATTR).is_none() && regex_error(COLOR_DECL).is_none()
}

/// Cleans an HTML mail body, or `None` if one of the cleaning's patterns does not compile.
pub fn try_sanitize_html(html: &str) -> (r: Option<String>)
    ensures
        match r {
            Some(t) => sanitize_patterns_compile() && t@ == sanitized(html@),
            None => !sanitize_patterns_compile(),
        },
{
    if sanitize_patterns_ok() {
        Some(sanitize_html(html))
    } else {
        None
    }
}

/// Darkens an inline style, or `None` if the colour pattern does not compile.
pub fn try_fix_inline_style(style: &str) -> (r: Option<String>)
    ensures
        match r {
            Some(t) => regex_compile_error(COLOR_DECL@) is None && t@ == fixed_style(style@),
            None => regex_compile_error(COLOR_DECL@) is Some,
        },
{
    if regex_error(COLOR_DECL).is_none() {
        Some(fix_inline_style(style))
    } else {
        None
    }
}

} // verus!
