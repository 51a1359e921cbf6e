//! Regular-expression matching through the `regex` crate, and splicing replacements into the
//! matched text.
use vstd::prelude::*;
use crate::text::{
    append_all, char_index_at_byte, char_index_at_byte_exec, chars_of, copy_range,
    lemma_char_index_at_byte, lemma_utf8_len_take_mono, string_of, utf8_len,
};

verus! {

/// The message `regex::Regex::new` gives for `pattern`; `None` when the pattern compiles.
pub uninterp spec fn regex_compile_error(pattern: Seq<char>) -> Option<Seq<char>>;

/// Calls `regex::Regex::new` and keeps only whether it failed and the error's text. The
/// contract names the outcome, a function of the pattern alone; which patterns compile is left
/// unstated.
#[verifier::external_body]
pub(crate) fn regex_error(pattern: &str) -> (r: Option<String>)
    ensures
        match r {
            Some(e) => regex_compile_error(pattern@) == Some(e@),
            None => regex_compile_error(pattern@) is None,
        },
{
    regex::Regex::new(pattern).err().map(|e| e.to_string())
}

/// The successive non-overlapping matches of `pattern` in `text` that `regex::Regex`'s
/// `captures_iter` yields: for each match, the byte span of every capture group (group 0 is
/// the whole match), `None` for a group that did not take part.
pub uninterp spec fn regex_matches(pattern: Seq<char>, text: Seq<char>) -> Seq<
    Seq<Option<(usize, usize)>>,
>;

/// What the `regex` crate documents of the spans it reports for a haystack `text`: every match
/// has its whole-match group; each span starts no later than it ends and both ends fall on
/// character boundaries; the whole matches come left to right without overlapping.
#[verifier::opaque]
pub open spec fn spans_well_formed(ms: Seq<Seq<Option<(usize, usize)>>>, text: Seq<char>) -> bool {
    &&& forall|i: int| 0 <= i < ms.len() ==> (#[trigger] ms[i]).len() >= 1 && ms[i][0] is Some
    &&& forall|i: int, g: int|
        0 <= i < ms.len() && 0 <= g < ms[i].len() && (#[trigger] ms[i][g]) is Some ==> {
            let (a, b) = ms[i][g].unwrap();
            &&& a <= b
            &&& char_index_at_byte(text, a as int) is Some
            &&& char_index_at_byte(text, b as int) is Some
        }
    &&& forall|i: int|
        0 <= i < ms.len() - 1 ==> (#[trigger] ms[i])[0].unwrap().1 <= ms[i + 1][0].unwrap().0
}

/// Calls `regex::Regex::new(pattern)` (which the caller knows compiles) and collects, for each
/// match of `captures_iter(text)`, the byte spans of its groups. The contract names the result
/// and states the facts the crate documents for the spans (`spans_well_formed`); where the
/// pattern matches is left unstated.
#[verifier::external_body]
pub(crate) fn regex_capture_spans(pattern: &str, text: &str) -> (r: Vec<Vec<Option<(usize, usize)>>>)
    requires
        regex_compile_error(pattern@) is None,
    ensures
        r.deep_view() == regex_matches(pattern@, text@),
        spans_well_formed(r.deep_view(), text@),
{
    let re = regex::Regex::new(pattern).unwrap();
    re.captures_iter(text).map(|caps| caps.iter().map(|g| g.map(|m| (m.start(), m.end()))).collect()).collect()
}

/// The character span of group `g` of match `m` in `text`.
pub open spec fn group_chars(text: Seq<char>, m: Seq<Option<(usize, usize)>>, g: int) -> (int, int) {
    let (a, b) = m[g].unwrap();
    (char_index_at_byte(text, a as int).unwrap(), char_index_at_byte(text, b as int).unwrap())
}

/// The text of group `g` of match `m`, empty when the group did not take part.
pub open spec fn group_text(text: Seq<char>, m: Seq<Option<(usize, usize)>>, g: int) -> Seq<char> {
    if 0 <= g < m.len() && m[g] is Some {
        let (a, b) = group_chars(text, m, g);
        text.subrange(a, b)
    } else {
        Seq::empty()
    }
}

/// `text[pos..]` with the whole match of `ms[k]`, `ms[k + 1]`, ... replaced by `reps[k]`,
/// `reps[k + 1]`, ...
pub open spec fn splice_from(
    text: Seq<char>,
    ms: Seq<Seq<Option<(usize, usize)>>>,
    reps: Seq<Seq<char>>,
    k: int,
    pos: int,
) -> Seq<char>
    decreases ms.len() - k,
{
    if k < 0 || k >= ms.len() {
        text.subrange(pos, text.len() as int)
    } else {
        let (a, b) = group_chars(text, ms[k], 0);
        text.subrange(pos, a) + reps[k] + splice_from(text, ms, reps, k + 1, b)
    }
}

/// `text` with the whole of each match in `ms` replaced by the matching entry of `reps`.
pub open spec fn splice(text: Seq<char>, ms: Seq<Seq<Option<(usize, usize)>>>, reps: Seq<Seq<char>>) -> Seq<char> {
    splice_from(text, ms, reps, 0, 0)
}

/// `text` with every match of `pattern` replaced by `rep` (`Regex::replace_all` with a
/// replacement that holds no `$`).
pub open spec fn regex_replaced(pattern: Seq<char>, text: Seq<char>, rep: Seq<char>) -> Seq<char> {
    let ms = regex_matches(pattern, text);
    splice(text, ms, Seq::new(ms.len(), |i: int| rep))
}

/// A vector of spans is its own deep view.
pub proof fn lemma_spans_deep_view(m: Vec<Option<(usize, usize)>>)
    ensures
        m.deep_view() == m@,
{
    assert(m.deep_view() =~= m@);
}

/// The matches' deep view is the sequence of each match's spans.
pub proof fn lemma_matches_deep_view(ms: Vec<Vec<Option<(usize, usize)>>>)
    ensures
        ms.deep_view().len() == ms@.len(),
        forall|i: int| 0 <= i < ms@.len() ==> #[trigger] ms.deep_view()[i] == ms@[i]@,
{
    assert forall|i: int| 0 <= i < ms@.len() implies #[trigger] ms.deep_view()[i] == ms@[i]@ by {
        lemma_spans_deep_view(ms@[i]);
    }
}

/// The character span of group `g` of a match, its byte ends known to be boundaries.
pub fn group_chars_exec(text: &[char], m: &Vec<Option<(usize, usize)>>, g: usize) -> (r: (usize, usize))
    requires
        g < m@.len(),
        m@[g as int] is Some,
        ({
            let (a, b) = m@[g as int].unwrap();
            &&& a <= b
            &&& char_index_at_byte(text@, a as int) is Some
            &&& char_index_at_byte(text@, b as int) is Some
        }),
    ensures
        r.0 as int == group_chars(text@, m@, g as int).0,
        r.1 as int == group_chars(text@, m@, g as int).1,
        r.0 <= r.1 <= text@.len(),
{
    let (a, b) = m[g].unwrap();
    proof {
        lemma_char_index_at_byte(text@, a as int);
        lemma_char_index_at_byte(text@, b as int);
    }
    let ca = char_index_at_byte_exec(text, a as u128).unwrap();
    let cb = char_index_at_byte_exec(text, b as u128).unwrap();
    proof {
        if cb < ca {
            lemma_utf8_len_take_mono(text@, cb as int, ca as int);
        }
    }
    (ca, cb)
}


/// The spans of group `g` of match `i` of well-formed matches are ordered boundaries.
pub proof fn lemma_span_facts(ms: Seq<Seq<Option<(usize, usize)>>>, text: Seq<char>, i: int, g: int)
    requires
        spans_well_formed(ms, text),
        0 <= i < ms.len(),
    ensures
        ms[i].len() >= 1,
        ms[i][0] is Some,
        0 <= g < ms[i].len() && ms[i][g] is Some ==> {
            let (a, b) = ms[i][g].unwrap();
            &&& a <= b
            &&& char_index_at_byte(text, a as int) is Some
            &&& char_index_at_byte(text, b as int) is Some
        },
        i + 1 < ms.len() ==> ms[i][0].unwrap().1 <= ms[i + 1][0].unwrap().0,
{
    reveal(spans_well_formed);
}

/// The next whole match starts, in characters, no earlier than the one before it ends.
proof fn lemma_next_match_after(text: Seq<char>, dms: Seq<Seq<Option<(usize, usize)>>>, k: int)
    requires
        spans_well_formed(dms, text),
        0 <= k,
        k + 1 < dms.len(),
    ensures
        group_chars(text, dms[k], 0).1 <= group_chars(text, dms[k + 1], 0).0,
{
    lemma_span_facts(dms, text, k, 0);
    lemma_span_facts(dms, text, k + 1, 0);
    let m2 = dms[k + 1];
    let (a2b, _b2b) = m2[0].unwrap();
    let (_ab, bb) = dms[k][0].unwrap();
    assert(bb <= a2b);
    let ca2 = group_chars(text, m2, 0).0;
    let cb = group_chars(text, dms[k], 0).1;
    lemma_char_index_at_byte(text, a2b as int);
    lemma_char_index_at_byte(text, bb as int);
    if ca2 < cb {
        lemma_utf8_len_take_mono(text, ca2, cb);
    }
}

/// `text` with the whole of each match replaced by the matching entry of `reps`.
pub fn splice_exec(
    text: &[char],
    ms: &Vec<Vec<Option<(usize, usize)>>>,
    reps: &Vec<Vec<char>>,
) -> (r: Vec<char>)
    requires
        spans_well_formed(ms.deep_view(), text@),
        reps@.len() == ms@.len(),
    ensures
        r@ == splice(text@, ms.deep_view(), reps@.map_values(|v: Vec<char>| v@)),
{
    let ghost dms = ms.deep_view();
    let ghost rs = reps@.map_values(|v: Vec<char>| v@);
    proof {
        lemma_matches_deep_view(*ms);
        if dms.len() > 0 {
            lemma_span_facts(dms, text@, 0, 0);
            let (a0, _b0) = dms[0][0].unwrap();
            lemma_char_index_at_byte(text@, a0 as int);
        }
    }
    let n = text.len();
    let mut out: Vec<char> = Vec::new();
    let mut pos: usize = 0;
    let mut k: usize = 0;
    while k < ms.len()
        invariant
            n == text@.len(),
            dms == ms.deep_view(),
            rs == reps@.map_values(|v: Vec<char>| v@),
            dms.len() == ms@.len(),
            forall|i: int| 0 <= i < ms@.len() ==> #[trigger] dms[i] == ms@[i]@,
            spans_well_formed(dms, text@),
            reps@.len() == ms@.len(),
            k <= ms@.len(),
            pos <= n,
            k < ms@.len() ==> pos <= group_chars(text@, dms[k as int], 0).0,
            out@ + splice_from(text@, dms, rs, k as int, pos as int) == splice(text@, dms, rs),
        decreases ms.len() - k,
    {
        let m = &ms[k];
        assert(dms[k as int] == m@);
        proof {
            lemma_span_facts(dms, text@, k as int, 0);
        }
        let (a, b) = group_chars_exec(text, m, 0);
        let piece = copy_range(text, pos, a);
        let ghost old_out = out@;
        append_all(&mut out, piece.as_slice());
        append_all(&mut out, reps[k].as_slice());
        assert(rs[k as int] == reps@[k as int]@);
        assert(out@ + splice_from(text@, dms, rs, k + 1, b as int) =~= old_out + splice_from(
            text@,
            dms,
            rs,
            k as int,
            pos as int,
        ));
        proof {
            if k + 1 < dms.len() {
                lemma_next_match_after(text@, dms, k as int);
            }
        }
        pos = b;
        k = k + 1;
    }
    let rest = copy_range(text, pos, n);
    let ghost old_out = out@;
    append_all(&mut out, rest.as_slice());
    out
}

/// `text` with every match of `pattern`, which the caller knows compiles, replaced by `rep`.
pub fn regex_replace_all(pattern: &str, text: &[char], rep: &str) -> (r: Vec<char>)
    requires
        regex_compile_error(pattern@) is None,
    ensures
        r@ == regex_replaced(pattern@, text@, rep@),
{
    let t = string_of(text);
    let ms = regex_capture_spans(pattern, t.as_str());
    let rc = chars_of(rep);
    let mut reps: Vec<Vec<char>> = Vec::new();
    let mut i: usize = 0;
    while i < ms.len()
        invariant
            i <= ms@.len(),
            reps@.len() == i,
            forall|j: int| 0 <= j < i ==> (#[trigger] reps@[j])@ == rep@,
            rc@ == rep@,
        decreases ms.len() - i,
    {
        reps.push(copy_range(rc.as_slice(), 0, rc.len()));
        assert(rc@.subrange(0, rc@.len() as int) == rc@);
        i = i + 1;
    }
    let r = splice_exec(text, &ms, &reps);
    proof {
        lemma_matches_deep_view(ms);
    }
    assert(reps@.map_values(|v: Vec<char>| v@) =~= Seq::new(ms.deep_view().len(), |j: int| rep@));
    r
}

} // verus!
