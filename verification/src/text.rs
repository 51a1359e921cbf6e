use vstd::prelude::*;

verus! {

/// Appends one character to a string (`String::push`).
#[verifier::external_body]
pub(crate) fn push_char(s: &mut String, c: char)
    ensures
        final(s)@ == old(s)@.push(c),
{
    s.push(c);
}

/// The characters of a string slice, in order.
pub fn chars_of(s: &str) -> (r: Vec<char>)
    ensures
        r@ == s@,
{
    let mut r: Vec<char> = Vec::new();
    for c in it: s.chars()
        invariant
            r@ == it.seq().take(it.index() as int),
            it.seq() == s@,
    {
        r.push(c);
    }
    r
}

/// A string holding exactly the given characters.
pub fn string_of(v: &[char]) -> (r: String)
    ensures
        r@ == v@,
{
    let mut r = String::new();
    let mut i: usize = 0;
    while i < v.len()
        invariant
            i <= v.len(),
            r@ == v@.take(i as int),
        decreases v.len() - i,
    {
        push_char(&mut r, v[i]);
        assert(v@.take(i as int + 1) == v@.take(i as int).push(v@[i as int]));
        i = i + 1;
    }
    assert(v@.take(v.len() as int) == v@);
    r
}

} // verus!

verus! {

/// A copy of `v[a..b]`.
pub fn copy_range<T: Copy>(v: &[T], a: usize, b: usize) -> (r: Vec<T>)
    requires
        a <= b <= v@.len(),
    ensures
        r@ == v@.subrange(a as int, b as int),
{
    let mut r: Vec<T> = Vec::new();
    let mut i: usize = a;
    while i < b
        invariant
            a <= i <= b <= v@.len(),
            r@ == v@.subrange(a as int, i as int),
        decreases b - i,
    {
        r.push(v[i]);
        assert(v@.subrange(a as int, i as int + 1) == v@.subrange(a as int, i as int).push(
            v@[i as int],
        ));
        i = i + 1;
    }
    r
}

/// Appends all of `src` to `dst`.
pub fn append_all<T: Copy>(dst: &mut Vec<T>, src: &[T])
    ensures
        final(dst)@ == old(dst)@ + src@,
{
    let mut i: usize = 0;
    while i < src.len()
        invariant
            i <= src@.len(),
            dst@ == old(dst)@ + src@.take(i as int),
        decreases src.len() - i,
    {
        dst.push(src[i]);
        assert(src@.take(i as int + 1) == src@.take(i as int).push(src@[i as int]));
        i = i + 1;
    }
    assert(src@.take(src@.len() as int) == src@);
}

/// `needle` occurs in `hay` at index `i`.
pub open spec fn occurs_at(hay: Seq<char>, needle: Seq<char>, i: int) -> bool {
    &&& 0 <= i
    &&& i + needle.len() <= hay.len()
    &&& hay.subrange(i, i + needle.len()) == needle
}

/// The first index at or after `from` where `needle` occurs in `hay`.
pub open spec fn find_from(hay: Seq<char>, needle: Seq<char>, from: int) -> Option<int>
    decreases hay.len() + 1 - from,
{
    if from < 0 || from + needle.len() > hay.len() {
        None
    } else if occurs_at(hay, needle, from) {
        Some(from)
    } else {
        find_from(hay, needle, from + 1)
    }
}

/// The first index where `needle` occurs in `hay` (`str::find`).
pub open spec fn find_seq(hay: Seq<char>, needle: Seq<char>) -> Option<int> {
    find_from(hay, needle, 0)
}

/// `needle` occurs somewhere in `hay` (`str::contains`).
pub open spec fn contains_seq(hay: Seq<char>, needle: Seq<char>) -> bool {
    find_seq(hay, needle) is Some
}

/// `s` begins with `p` (`str::starts_with`).
pub open spec fn starts_with_seq(s: Seq<char>, p: Seq<char>) -> bool {
    p.len() <= s.len() && s.subrange(0, p.len() as int) == p
}

/// `s` ends with `p` (`str::ends_with`).
pub open spec fn ends_with_seq(s: Seq<char>, p: Seq<char>) -> bool {
    p.len() <= s.len() && s.subrange(s.len() - p.len(), s.len() as int) == p
}

/// Whether `needle` occurs in `hay` at index `i`.
pub fn occurs_at_exec(hay: &[char], needle: &[char], i: usize) -> (r: bool)
    ensures
        r == occurs_at(hay@, needle@, i as int),
{
    if i > hay.len() || needle.len() > hay.len() - i {
        return false;
    }
    let hl = hay.len();
    let mut k: usize = 0;
    while k < needle.len()
        invariant
            hl == hay@.len(),
            i + needle@.len() <= hay@.len(),
            i <= hay@.len(),
            k <= needle@.len(),
            forall|j: int| 0 <= j < k ==> hay@[i + j] == needle@[j],
        decreases needle.len() - k,
    {
        if hay[i + k] != needle[k] {
            assert(hay@.subrange(i as int, i + needle@.len())[k as int] != needle@[k as int]);
            return false;
        }
        k = k + 1;
    }
    assert(hay@.subrange(i as int, i + needle@.len()) == needle@);
    true
}

/// The first index at or after `from` where `needle` occurs in `hay`.
pub fn find_from_exec(hay: &[char], needle: &[char], from: usize) -> (r: Option<usize>)
    ensures
        match r {
            Some(i) => find_from(hay@, needle@, from as int) == Some(i as int),
            None => find_from(hay@, needle@, from as int) is None,
        },
{
    let mut i: usize = from;
    loop
        invariant
            find_from(hay@, needle@, from as int) == find_from(hay@, needle@, i as int),
        decreases hay@.len() + 1 - i,
    {
        if i > hay.len() || needle.len() > hay.len() - i {
            return None;
        }
        if occurs_at_exec(hay, needle, i) {
            return Some(i);
        }
        if needle.len() == 0 {
            assert(hay@.subrange(i as int, i as int) =~= needle@);
        }
        i = i + 1;
    }
}

/// The first index where `needle` occurs in `hay`.
pub fn find_exec(hay: &[char], needle: &[char]) -> (r: Option<usize>)
    ensures
        match r {
            Some(i) => find_seq(hay@, needle@) == Some(i as int),
            None => find_seq(hay@, needle@) is None,
        },
{
    find_from_exec(hay, needle, 0)
}

/// Whether `needle` occurs in `hay`.
pub fn contains_exec(hay: &[char], needle: &[char]) -> (r: bool)
    ensures
        r == contains_seq(hay@, needle@),
{
    find_exec(hay, needle).is_some()
}

/// Whether `s` begins with `p`.
pub fn starts_with_exec(s: &[char], p: &[char]) -> (r: bool)
    ensures
        r == starts_with_seq(s@, p@),
{
    occurs_at_exec(s, p, 0)
}

/// Whether `s` ends with `p`.
pub fn ends_with_exec(s: &[char], p: &[char]) -> (r: bool)
    ensures
        r == ends_with_seq(s@, p@),
{
    if p.len() > s.len() {
        false
    } else {
        occurs_at_exec(s, p, s.len() - p.len())
    }
}

/// Whether `needle` occurs in `hay`, the needle given as a string slice.
pub fn contains_str(hay: &[char], needle: &str) -> (r: bool)
    ensures
        r == contains_seq(hay@, needle@),
{
    let n = chars_of(needle);
    contains_exec(hay, n.as_slice())
}

/// Whether `s` begins with the string slice `p`.
pub fn starts_with_str(s: &[char], p: &str) -> (r: bool)
    ensures
        r == starts_with_seq(s@, p@),
{
    let n = chars_of(p);
    starts_with_exec(s, n.as_slice())
}

/// The first index where the string slice `needle` occurs in `hay`.
pub fn find_str(hay: &[char], needle: &str) -> (r: Option<usize>)
    ensures
        match r {
            Some(i) => find_seq(hay@, needle@) == Some(i as int),
            None => find_seq(hay@, needle@) is None,
        },
{
    let n = chars_of(needle);
    find_exec(hay, n.as_slice())
}

} // verus!

verus! {

/// What `find_from` returns is a real occurrence, and the first one at or after `from`.
pub proof fn lemma_find_from(hay: Seq<char>, needle: Seq<char>, from: int)
    requires
        0 <= from,
    ensures
        match find_from(hay, needle, from) {
            Some(i) => {
                &&& 0 <= from <= i
                &&& occurs_at(hay, needle, i)
                &&& forall|j: int| from <= j < i ==> !occurs_at(hay, needle, j)
            },
            None => forall|j: int| from <= j ==> !occurs_at(hay, needle, j),
        },
    decreases hay.len() + 1 - from,
{
    if from + needle.len() > hay.len() {
    } else if occurs_at(hay, needle, from) {
    } else {
        lemma_find_from(hay, needle, from + 1);
    }
}

/// Unicode `White_Space` (what `char::is_whitespace` tests).
pub open spec fn is_ws(c: char) -> bool {
    let u = c as u32;
    ||| 0x9 <= u <= 0xd
    ||| u == 0x20
    ||| u == 0x85
    ||| u == 0xa0
    ||| u == 0x1680
    ||| 0x2000 <= u <= 0x200a
    ||| u == 0x2028
    ||| u == 0x2029
    ||| u == 0x202f
    ||| u == 0x205f
    ||| u == 0x3000
}

/// Whether `c` is Unicode white space.
pub fn is_ws_exec(c: char) -> (r: bool)
    ensures
        r == is_ws(c),
{
    let u = c as u32;
    (0x9 <= u && u <= 0xd) || u == 0x20 || u == 0x85 || u == 0xa0 || u == 0x1680 || (0x2000 <= u
        && u <= 0x200a) || u == 0x2028 || u == 0x2029 || u == 0x202f || u == 0x205f || u == 0x3000
}

/// `s` without leading white space (`str::trim_start`).
pub open spec fn trim_start_seq(s: Seq<char>) -> Seq<char>
    decreases s.len(),
{
    if s.len() > 0 && is_ws(s[0]) {
        trim_start_seq(s.drop_first())
    } else {
        s
    }
}

/// `s` without trailing white space (`str::trim_end`).
pub open spec fn trim_end_seq(s: Seq<char>) -> Seq<char>
    decreases s.len(),
{
    if s.len() > 0 && is_ws(s.last()) {
        trim_end_seq(s.drop_last())
    } else {
        s
    }
}

/// `s` without white space at either end (`str::trim`).
pub open spec fn trim_seq(s: Seq<char>) -> Seq<char> {
    trim_end_seq(trim_start_seq(s))
}

proof fn lemma_trim_start_first(s: Seq<char>)
    ensures
        trim_start_seq(s).len() == 0 || !is_ws(trim_start_seq(s)[0]),
    decreases s.len(),
{
    if s.len() > 0 && is_ws(s[0]) {
        lemma_trim_start_first(s.drop_first());
    }
}

proof fn lemma_trim_end_prefix(s: Seq<char>)
    ensures
        trim_end_seq(s).len() <= s.len(),
        trim_end_seq(s) == s.subrange(0, trim_end_seq(s).len() as int),
        trim_end_seq(s).len() == 0 || !is_ws(trim_end_seq(s).last()),
    decreases s.len(),
{
    if s.len() > 0 && is_ws(s.last()) {
        lemma_trim_end_prefix(s.drop_last());
        assert(s.drop_last().subrange(0, trim_end_seq(s).len() as int) == s.subrange(
            0,
            trim_end_seq(s).len() as int,
        ));
    } else {
        assert(s.subrange(0, s.len() as int) == s);
    }
}

/// What `trim_seq` gives neither starts nor ends with white space.
pub proof fn lemma_trim_seq_ends(s: Seq<char>)
    ensures
        trim_seq(s).len() == 0 || (!is_ws(trim_seq(s)[0]) && !is_ws(trim_seq(s).last())),
{
    let u = trim_start_seq(s);
    lemma_trim_start_first(s);
    lemma_trim_end_prefix(u);
    if trim_seq(s).len() > 0 {
        assert(trim_seq(s)[0] == u[0]);
    }
}

proof fn lemma_trim_start_suffix(s: Seq<char>)
    ensures
        trim_start_seq(s).len() <= s.len(),
        trim_start_seq(s) == s.subrange(s.len() - trim_start_seq(s).len(), s.len() as int),
    decreases s.len(),
{
    if s.len() > 0 && is_ws(s[0]) {
        lemma_trim_start_suffix(s.drop_first());
        assert(s.drop_first().subrange(
            s.drop_first().len() - trim_start_seq(s).len(),
            s.drop_first().len() as int,
        ) == s.subrange(s.len() - trim_start_seq(s).len(), s.len() as int));
    } else {
        assert(s.subrange(0, s.len() as int) == s);
    }
}

/// Trimming white space off both ends of `s` makes no new occurrence of `needle`.
pub proof fn lemma_trim_seq_contains(s: Seq<char>, needle: Seq<char>)
    ensures
        contains_seq(trim_seq(s), needle) ==> contains_seq(s, needle),
{
    let u = trim_start_seq(s);
    let t = trim_seq(s);
    lemma_trim_start_suffix(s);
    lemma_trim_end_prefix(u);
    let a = s.len() - u.len();
    assert(t == s.subrange(a, a + t.len()));
    if contains_seq(t, needle) {
        lemma_find_from(t, needle, 0);
        let i = find_seq(t, needle).unwrap();
        assert(s.subrange(a + i, a + i + needle.len()) == t.subrange(i, i + needle.len()));
        assert(occurs_at(s, needle, a + i));
        lemma_find_from(s, needle, 0);
    }
}

/// `s` without the leading characters that belong to `set` (`str::trim_start_matches`).
pub open spec fn trim_start_set(s: Seq<char>, set: Seq<char>) -> Seq<char>
    decreases s.len(),
{
    if s.len() > 0 && set.contains(s[0]) {
        trim_start_set(s.drop_first(), set)
    } else {
        s
    }
}

/// `s` without the trailing characters that belong to `set` (`str::trim_end_matches`).
pub open spec fn trim_end_set(s: Seq<char>, set: Seq<char>) -> Seq<char>
    decreases s.len(),
{
    if s.len() > 0 && set.contains(s.last()) {
        trim_end_set(s.drop_last(), set)
    } else {
        s
    }
}

/// `s` with every trailing copy of the non-empty `p` removed (`str::trim_end_matches` with a string).
pub open spec fn trim_end_str(s: Seq<char>, p: Seq<char>) -> Seq<char>
    decreases s.len(),
{
    if p.len() > 0 && ends_with_seq(s, p) {
        trim_end_str(s.subrange(0, s.len() - p.len()), p)
    } else {
        s
    }
}

/// The index of the first character of `s` at or after `i` that is not white space.
pub fn skip_ws_forward(s: &[char], i: usize) -> (r: usize)
    requires
        i <= s@.len(),
    ensures
        i <= r <= s@.len(),
        trim_start_seq(s@.subrange(i as int, s@.len() as int)) == s@.subrange(
            r as int,
            s@.len() as int,
        ),
{
    let n = s.len();
    let mut k = i;
    while k < n && is_ws_exec(s[k])
        invariant
            n == s@.len(),
            i <= k <= n,
            trim_start_seq(s@.subrange(i as int, n as int)) == trim_start_seq(
                s@.subrange(k as int, n as int),
            ),
        decreases n - k,
    {
        assert(s@.subrange(k as int, n as int).drop_first() == s@.subrange(k + 1, n as int));
        k = k + 1;
    }
    k
}

/// The end of `s[..i]` once trailing white space is dropped.
pub fn skip_ws_backward(s: &[char], i: usize) -> (r: usize)
    requires
        i <= s@.len(),
    ensures
        r <= i,
        trim_end_seq(s@.subrange(0, i as int)) == s@.subrange(0, r as int),
{
    let mut k = i;
    while k > 0 && is_ws_exec(s[k - 1])
        invariant
            k <= i <= s@.len(),
            trim_end_seq(s@.subrange(0, i as int)) == trim_end_seq(s@.subrange(0, k as int)),
        decreases k,
    {
        assert(s@.subrange(0, k as int).drop_last() == s@.subrange(0, k - 1));
        k = k - 1;
    }
    k
}

/// `s` without white space at either end.
pub fn trim_chars(s: &[char]) -> (r: Vec<char>)
    ensures
        r@ == trim_seq(s@),
{
    assert(s@.subrange(0, s@.len() as int) == s@);
    let a = skip_ws_forward(s, 0);
    let rest = copy_range(s, a, s.len());
    assert(rest@.subrange(0, rest@.len() as int) == rest@);
    let b = skip_ws_backward(rest.as_slice(), rest.len());
    assert(rest@.subrange(0, b as int) == s@.subrange(a as int, a + b));
    copy_range(s, a, a + b)
}

/// `s` without trailing white space.
pub fn trim_end_chars(s: &[char]) -> (r: Vec<char>)
    ensures
        r@ == trim_end_seq(s@),
{
    assert(s@.subrange(0, s@.len() as int) == s@);
    let b = skip_ws_backward(s, s.len());
    copy_range(s, 0, b)
}

/// Whether `c` is one of the characters in `set`.
pub fn in_set(set: &[char], c: char) -> (r: bool)
    ensures
        r == set@.contains(c),
{
    let mut i: usize = 0;
    while i < set.len()
        invariant
            i <= set@.len(),
            forall|j: int| 0 <= j < i ==> set@[j] != c,
        decreases set.len() - i,
    {
        if set[i] == c {
            return true;
        }
        i = i + 1;
    }
    false
}

/// `s` without leading characters from `set`.
pub fn trim_start_set_chars(s: &[char], set: &[char]) -> (r: Vec<char>)
    ensures
        r@ == trim_start_set(s@, set@),
{
    let n = s.len();
    let mut k: usize = 0;
    assert(s@.subrange(0, n as int) == s@);
    while k < n && in_set(set, s[k])
        invariant
            n == s@.len(),
            k <= n,
            trim_start_set(s@, set@) == trim_start_set(s@.subrange(k as int, n as int), set@),
        decreases n - k,
    {
        assert(s@.subrange(k as int, n as int).drop_first() == s@.subrange(k + 1, n as int));
        k = k + 1;
    }
    copy_range(s, k, n)
}

/// `s` without trailing characters from `set`.
pub fn trim_end_set_chars(s: &[char], set: &[char]) -> (r: Vec<char>)
    ensures
        r@ == trim_end_set(s@, set@),
{
    let mut k: usize = s.len();
    assert(s@.subrange(0, k as int) == s@);
    while k > 0 && in_set(set, s[k - 1])
        invariant
            k <= s@.len(),
            trim_end_set(s@, set@) == trim_end_set(s@.subrange(0, k as int), set@),
        decreases k,
    {
        assert(s@.subrange(0, k as int).drop_last() == s@.subrange(0, k - 1));
        k = k - 1;
    }
    copy_range(s, 0, k)
}

/// `s` with every trailing copy of the non-empty `p` removed.
pub fn trim_end_str_chars(s: &[char], p: &[char]) -> (r: Vec<char>)
    ensures
        r@ == trim_end_str(s@, p@),
{
    let mut k: usize = s.len();
    assert(s@.subrange(0, k as int) == s@);
    if p.len() == 0 {
        return copy_range(s, 0, k);
    }
    loop
        invariant
            k <= s@.len(),
            p@.len() > 0,
            trim_end_str(s@, p@) == trim_end_str(s@.subrange(0, k as int), p@),
        decreases k,
    {
        let cur = copy_range(s, 0, k);
        if !ends_with_exec(cur.as_slice(), p) {
            return cur;
        }
        assert(s@.subrange(0, k as int).subrange(0, k - p@.len()) == s@.subrange(
            0,
            k - p@.len(),
        ));
        k = k - p.len();
    }
}

} // verus!

verus! {

/// The views of a sequence of character vectors.
pub open spec fn views(v: Seq<Vec<char>>) -> Seq<Seq<char>> {
    v.map_values(|x: Vec<char>| x@)
}

/// A line without its trailing carriage return, if it has one.
pub open spec fn strip_cr(l: Seq<char>) -> Seq<char> {
    if l.len() > 0 && l.last() == '\r' {
        l.drop_last()
    } else {
        l
    }
}

/// The lines of `s[pos..]` as `str::lines` yields them: split at `'\n'`, a `'\r'` that ends a
/// line dropped with it, and no empty line after a final newline.
pub open spec fn lines_from(s: Seq<char>, pos: int) -> Seq<Seq<char>>
    decreases s.len() - pos,
{
    if pos < 0 || pos >= s.len() {
        seq![]
    } else {
        match find_from(s, seq!['\n'], pos) {
            None => seq![s.subrange(pos, s.len() as int)],
            Some(i) => {
                proof {
                    lemma_find_from(s, seq!['\n'], pos);
                }
                seq![strip_cr(s.subrange(pos, i))] + lines_from(s, i + 1)
            },
        }
    }
}

/// The lines of `s` (`str::lines`).
pub open spec fn lines_seq(s: Seq<char>) -> Seq<Seq<char>> {
    lines_from(s, 0)
}

/// The pieces of `s[pos..]` between the occurrences of the non-empty `d` (`str::split`).
pub open spec fn split_from(s: Seq<char>, d: Seq<char>, pos: int) -> Seq<Seq<char>>
    decreases s.len() + 1 - pos,
{
    if pos < 0 || pos > s.len() || d.len() == 0 {
        seq![]
    } else {
        match find_from(s, d, pos) {
            None => seq![s.subrange(pos, s.len() as int)],
            Some(i) => {
                proof {
                    lemma_find_from(s, d, pos);
                }
                seq![s.subrange(pos, i)] + split_from(s, d, i + d.len())
            },
        }
    }
}

/// The pieces of `s` between the occurrences of the non-empty `d` (`str::split`).
pub open spec fn split_seq(s: Seq<char>, d: Seq<char>) -> Seq<Seq<char>> {
    split_from(s, d, 0)
}

/// `l` without a trailing carriage return.
pub fn strip_cr_chars(l: Vec<char>) -> (r: Vec<char>)
    ensures
        r@ == strip_cr(l@),
{
    let mut l = l;
    if l.len() > 0 && l[l.len() - 1] == '\r' {
        l.pop();
    }
    l
}

/// The lines of `s`.
pub fn lines_of(s: &[char]) -> (r: Vec<Vec<char>>)
    ensures
        views(r@) == lines_seq(s@),
{
    let n = s.len();
    let nl = ['\n'];
    assert(nl@ == seq!['\n']);
    let mut out: Vec<Vec<char>> = Vec::new();
    let mut pos: usize = 0;
    while pos < n
        invariant
            n == s@.len(),
            pos <= n,
            nl@ == seq!['\n'],
            views(out@) + lines_from(s@, pos as int) == lines_seq(s@),
        decreases n - pos,
    {
        proof {
            lemma_find_from(s@, seq!['\n'], pos as int);
        }
        match find_from_exec(s, nl.as_slice(), pos) {
            None => {
                let last = copy_range(s, pos, n);
                let ghost old_out = out@;
                out.push(last);
                assert(views(out@) == views(old_out).push(last@));
                assert(lines_from(s@, n as int) == Seq::<Seq<char>>::empty());
                assert(views(out@) + lines_from(s@, n as int) == lines_seq(s@));
                pos = n;
            },
            Some(i) => {
                let line = strip_cr_chars(copy_range(s, pos, i));
                let ghost old_out = out@;
                out.push(line);
                assert(views(out@) == views(old_out).push(line@));
                assert(views(out@) + lines_from(s@, i + 1) == views(old_out) + lines_from(
                    s@,
                    pos as int,
                ));
                pos = i + 1;
            },
        }
    }
    assert(lines_from(s@, pos as int) == Seq::<Seq<char>>::empty());
    assert(views(out@) + Seq::<Seq<char>>::empty() == views(out@));
    out
}

/// The pieces of `s` between the occurrences of the non-empty `d`.
pub fn split_on(s: &[char], d: &[char]) -> (r: Vec<Vec<char>>)
    requires
        d@.len() > 0,
    ensures
        views(r@) == split_seq(s@, d@),
{
    let n = s.len();
    let dn = d.len();
    let mut out: Vec<Vec<char>> = Vec::new();
    let mut pos: usize = 0;
    loop
        invariant
            n == s@.len(),
            dn == d@.len(),
            dn > 0,
            pos <= n,
            views(out@) + split_from(s@, d@, pos as int) == split_seq(s@, d@),
        decreases n + 1 - pos,
    {
        proof {
            lemma_find_from(s@, d@, pos as int);
        }
        match find_from_exec(s, d, pos) {
            None => {
                let last = copy_range(s, pos, n);
                let ghost old_out = out@;
                out.push(last);
                assert(views(out@) == views(old_out).push(last@));
                assert(views(out@) == views(old_out) + split_from(s@, d@, pos as int));
                assert(views(out@) == split_seq(s@, d@));
                return out;
            },
            Some(i) => {
                let piece = copy_range(s, pos, i);
                let ghost old_out = out@;
                out.push(piece);
                assert(views(out@) == views(old_out).push(piece@));
                assert(views(out@) + split_from(s@, d@, i + dn) == views(old_out) + split_from(
                    s@,
                    d@,
                    pos as int,
                ));
                pos = i + dn;
            },
        }
    }
}

} // verus!

verus! {

/// An ASCII decimal digit.
pub open spec fn is_digit(c: char) -> bool {
    '0' <= c <= '9'
}

/// The value of a decimal digit (0 for anything else).
pub open spec fn digit_val(c: char) -> nat {
    if is_digit(c) {
        (c as u32 - '0' as u32) as nat
    } else {
        0
    }
}

/// The number that a run of decimal digits writes.
pub open spec fn digits_value(s: Seq<char>) -> nat
    decreases s.len(),
{
    if s.len() == 0 {
        0
    } else {
        digits_value(s.drop_last()) * 10 + digit_val(s.last())
    }
}

/// Every character of `s` is a decimal digit.
pub open spec fn all_digits(s: Seq<char>) -> bool {
    forall|i: int| 0 <= i < s.len() ==> is_digit(#[trigger] s[i])
}

/// The end of the run of decimal digits in `s` that starts at `from`.
pub open spec fn digit_run_end(s: Seq<char>, from: int) -> int
    decreases s.len() - from,
{
    if from < 0 || from >= s.len() || !is_digit(s[from]) {
        from
    } else {
        digit_run_end(s, from + 1)
    }
}

/// A non-empty run of decimal digits read as a number no greater than `max`, as `str::parse`
/// reads an unsigned integer that has no sign.
pub open spec fn parse_digits(d: Seq<char>, max: nat) -> Option<nat> {
    if d.len() == 0 || !all_digits(d) || digits_value(d) > max {
        None
    } else {
        Some(digits_value(d))
    }
}

/// `str::parse::<usize>`: an optional leading `+`, then a non-empty run of decimal digits whose
/// value fits in a `usize`.
pub open spec fn parse_usize_seq(s: Seq<char>) -> Option<nat> {
    if s.len() > 0 && s[0] == '+' {
        parse_digits(s.drop_first(), usize::MAX as nat)
    } else {
        parse_digits(s, usize::MAX as nat)
    }
}

/// Whether `c` is an ASCII decimal digit.
pub fn is_digit_exec(c: char) -> (r: bool)
    ensures
        r == is_digit(c),
{
    '0' <= c && c <= '9'
}

/// The end of the run of decimal digits in `s` that starts at `from`.
pub fn digit_run_end_exec(s: &[char], from: usize) -> (r: usize)
    requires
        from <= s@.len(),
    ensures
        r as int == digit_run_end(s@, from as int),
        from <= r <= s@.len(),
{
    let n = s.len();
    let mut k = from;
    while k < n && is_digit_exec(s[k])
        invariant
            n == s@.len(),
            from <= k <= n,
            digit_run_end(s@, from as int) == digit_run_end(s@, k as int),
        decreases n - k,
    {
        k = k + 1;
    }
    k
}

/// Reads `d` as a run of decimal digits whose value is at most `max`.
pub fn parse_digits_exec(d: &[char], max: u64) -> (r: Option<u64>)
    ensures
        match r {
            Some(v) => parse_digits(d@, max as nat) == Some(v as nat),
            None => parse_digits(d@, max as nat) is None,
        },
{
    let n = d.len();
    if n == 0 {
        return None;
    }
    let mut acc: u64 = 0;
    let mut over = false;
    let mut i: usize = 0;
    while i < n
        invariant
            n == d@.len(),
            i <= n,
            all_digits(d@.take(i as int)),
            !over ==> acc as nat == digits_value(d@.take(i as int)) && acc <= max,
            over ==> digits_value(d@.take(i as int)) > max,
        decreases n - i,
    {
        let c = d[i];
        if !is_digit_exec(c) {
            assert(!all_digits(d@));
            return None;
        }
        let dv = (c as u32 - '0' as u32) as u64;
        assert(d@.take(i + 1).drop_last() == d@.take(i as int));
        assert(d@.take(i + 1).last() == c);
        if !over {
            match acc.checked_mul(10) {
                Some(x) => match x.checked_add(dv) {
                    Some(y) => {
                        if y <= max {
                            acc = y;
                        } else {
                            over = true;
                        }
                    },
                    None => {
                        over = true;
                    },
                },
                None => {
                    over = true;
                },
            }
        }
        assert forall|j: int| 0 <= j < i + 1 implies is_digit(#[trigger] d@.take(i + 1)[j]) by {
            if j < i {
                assert(d@.take(i + 1)[j] == d@.take(i as int)[j]);
            }
        }
        i = i + 1;
    }
    assert(d@.take(n as int) == d@);
    if over {
        None
    } else {
        Some(acc)
    }
}

/// Reads `s` as `str::parse::<usize>` does.
pub fn parse_usize_chars(s: &[char]) -> (r: Option<usize>)
    ensures
        match r {
            Some(v) => parse_usize_seq(s@) == Some(v as nat),
            None => parse_usize_seq(s@) is None,
        },
{
    let n = s.len();
    let r = if n > 0 && s[0] == '+' {
        let rest = copy_range(s, 1, n);
        assert(rest@ == s@.drop_first());
        parse_digits_exec(rest.as_slice(), usize::MAX as u64)
    } else {
        parse_digits_exec(s, usize::MAX as u64)
    };
    match r {
        Some(v) => Some(v as usize),
        None => None,
    }
}

/// The number of bytes `c` takes in UTF-8 (`char::len_utf8`).
pub open spec fn utf8_width(c: char) -> nat {
    let u = c as u32;
    if u < 0x80 {
        1
    } else if u < 0x800 {
        2
    } else if u < 0x10000 {
        3
    } else {
        4
    }
}

/// The number of bytes `s` takes in UTF-8.
pub open spec fn utf8_len(s: Seq<char>) -> nat
    decreases s.len(),
{
    if s.len() == 0 {
        0
    } else {
        utf8_len(s.drop_last()) + utf8_width(s.last())
    }
}

/// The character index in `s`, at or after `k`, at which `b` bytes of UTF-8 have gone by; none
/// when `b` falls inside a character or past the end.
pub open spec fn char_index_from(s: Seq<char>, b: int, k: int) -> Option<int>
    decreases s.len() - k,
{
    if k < 0 || k > s.len() || utf8_len(s.take(k)) > b {
        None
    } else if utf8_len(s.take(k)) == b {
        Some(k)
    } else if k == s.len() {
        None
    } else {
        char_index_from(s, b, k + 1)
    }
}

/// The character index in `s` at which byte offset `b` falls on a character boundary, if any.
pub open spec fn char_index_at_byte(s: Seq<char>, b: int) -> Option<int> {
    char_index_from(s, b, 0)
}

/// The number of bytes `c` takes in UTF-8.
pub fn utf8_width_exec(c: char) -> (r: u128)
    ensures
        r as nat == utf8_width(c),
{
    let u = c as u32;
    if u < 0x80 {
        1
    } else if u < 0x800 {
        2
    } else if u < 0x10000 {
        3
    } else {
        4
    }
}

/// The number of bytes the first `k` characters of `s` take in UTF-8.
pub fn utf8_prefix_len(s: &[char], k: usize) -> (r: u128)
    requires
        k <= s@.len(),
    ensures
        r as nat == utf8_len(s@.take(k as int)),
        r <= 4 * k,
{
    let mut acc: u128 = 0;
    let mut i: usize = 0;
    assert(s@.take(0) == Seq::<char>::empty());
    while i < k
        invariant
            i <= k <= s@.len(),
            acc as nat == utf8_len(s@.take(i as int)),
            acc <= 4 * i,
        decreases k - i,
    {
        assert(s@.take(i + 1).drop_last() == s@.take(i as int));
        acc = acc + utf8_width_exec(s[i]);
        i = i + 1;
    }
    acc
}

/// The character index in `s` at which byte offset `b` falls on a character boundary, if any.
pub fn char_index_at_byte_exec(s: &[char], b: u128) -> (r: Option<usize>)
    ensures
        match r {
            Some(k) => char_index_at_byte(s@, b as int) == Some(k as int),
            None => char_index_at_byte(s@, b as int) is None,
        },
{
    let n = s.len();
    let mut acc: u128 = 0;
    let mut k: usize = 0;
    assert(s@.take(0) == Seq::<char>::empty());
    loop
        invariant
            n == s@.len(),
            k <= n,
            acc as nat == utf8_len(s@.take(k as int)),
            acc <= 4 * k,
            char_index_at_byte(s@, b as int) == char_index_from(s@, b as int, k as int),
        decreases n - k,
    {
        if acc > b {
            return None;
        }
        if acc == b {
            return Some(k);
        }
        if k == n {
            return None;
        }
        assert(s@.take(k + 1).drop_last() == s@.take(k as int));
        acc = acc + utf8_width_exec(s[k]);
        k = k + 1;
    }
}

} // verus!

verus! {

/// `c` with an ASCII capital letter turned into its small letter.
pub open spec fn ascii_lower(c: char) -> char {
    if 'A' <= c <= 'Z' {
        ((c as u32) + 32) as char
    } else {
        c
    }
}

/// Every character of `s` is ASCII.
pub open spec fn all_ascii(s: Seq<char>) -> bool {
    forall|i: int| 0 <= i < s.len() ==> (#[trigger] s[i] as u32) < 0x80
}

/// What `str::to_lowercase` returns for a string with the characters `s` (Unicode lower
/// case mapping).
pub uninterp spec fn lowercase(s: Seq<char>) -> Seq<char>;

/// Calls `str::to_lowercase`. The contract names the result, a function of the characters
/// alone, and states what the standard library documents for ASCII text: each capital letter
/// becomes its small letter and nothing else changes. For other text it says nothing more.
#[verifier::external_body]
pub(crate) fn to_lowercase(s: &str) -> (r: String)
    ensures
        r@ == lowercase(s@),
        all_ascii(s@) ==> r@ == s@.map_values(|c: char| ascii_lower(c)),
{
    s.to_lowercase()
}

/// The Unicode lower case of the characters `s`.
pub fn lower_chars(s: &[char]) -> (r: Vec<char>)
    ensures
        r@ == lowercase(s@),
        all_ascii(s@) ==> r@ == s@.map_values(|c: char| ascii_lower(c)),
{
    let st = string_of(s);
    let l = to_lowercase(st.as_str());
    chars_of(l.as_str())
}

/// What `String::from_utf8_lossy` returns for the bytes `b`.
pub uninterp spec fn utf8_lossy(b: Seq<u8>) -> Seq<char>;

/// Calls `String::from_utf8_lossy`. The contract names the result, a function of the bytes
/// alone, and states what the standard library documents: valid UTF-8 comes back as the
/// characters it encodes. How invalid sequences are replaced is left unstated.
#[verifier::external_body]
pub(crate) fn decode_utf8_lossy(b: &[u8]) -> (r: String)
    ensures
        r@ == utf8_lossy(b@),
        vstd::utf8::valid_utf8(b@) ==> r@ == vstd::utf8::decode_utf8(b@),
{
    String::from_utf8_lossy(b).to_string()
}

/// The UTF-8 bytes of the characters `s`.
pub fn utf8_bytes(s: &[char]) -> (r: Vec<u8>)
    ensures
        r@ == vstd::utf8::encode_utf8(s@),
{
    let st = string_of(s);
    let b = st.as_str().as_bytes();
    copy_range(b, 0, b.len())
}

} // verus!

verus! {

/// A boundary found by `char_index_from` lies at or after where the search started.
pub proof fn lemma_char_index_from_after(s: Seq<char>, b: int, k: int)
    ensures
        char_index_from(s, b, k) matches Some(j) ==> k <= j <= s.len() && utf8_len(s.take(j))
            == b,
    decreases s.len() - k,
{
    if k < 0 || k > s.len() || utf8_len(s.take(k)) > b {
    } else if utf8_len(s.take(k)) == b {
    } else if k == s.len() {
    } else {
        lemma_char_index_from_after(s, b, k + 1);
    }
}

/// The character index in `s`, at or after `from`, at which byte offset `b` falls on a
/// character boundary, if any.
pub fn char_index_from_exec(s: &[char], b: u128, from: usize) -> (r: Option<usize>)
    requires
        from <= s@.len(),
    ensures
        match r {
            Some(k) => char_index_from(s@, b as int, from as int) == Some(k as int),
            None => char_index_from(s@, b as int, from as int) is None,
        },
{
    let n = s.len();
    let mut acc = utf8_prefix_len(s, from);
    let mut k: usize = from;
    loop
        invariant
            n == s@.len(),
            from <= k <= n,
            acc as nat == utf8_len(s@.take(k as int)),
            acc <= 4 * k,
            char_index_from(s@, b as int, from as int) == char_index_from(s@, b as int, k as int),
        decreases n - k,
    {
        if acc > b {
            return None;
        }
        if acc == b {
            return Some(k);
        }
        if k == n {
            return None;
        }
        assert(s@.take(k + 1).drop_last() == s@.take(k as int));
        acc = acc + utf8_width_exec(s[k]);
        k = k + 1;
    }
}

} // verus!

verus! {

/// Byte offsets of character prefixes grow with the prefix.
pub proof fn lemma_utf8_len_take_mono(s: Seq<char>, k1: int, k2: int)
    requires
        0 <= k1 <= k2 <= s.len(),
    ensures
        utf8_len(s.take(k1)) <= utf8_len(s.take(k2)),
        k1 < k2 ==> utf8_len(s.take(k1)) < utf8_len(s.take(k2)),
    decreases k2 - k1,
{
    if k1 < k2 {
        assert(s.take(k2).drop_last() == s.take(k2 - 1));
        lemma_utf8_len_take_mono(s, k1, k2 - 1);
    }
}

/// A boundary found at byte offset `b` is the one character index whose prefix has `b` bytes.
pub proof fn lemma_char_index_at_byte(s: Seq<char>, b: int)
    ensures
        char_index_at_byte(s, b) matches Some(k) ==> 0 <= k <= s.len() && utf8_len(s.take(k))
            == b,
{
    lemma_char_index_from_after(s, b, 0);
}

/// `t[pos..]` with each non-overlapping occurrence of the non-empty `from`, left to right,
/// replaced by `to` (`str::replace`).
pub open spec fn replace_from(t: Seq<char>, from: Seq<char>, to: Seq<char>, pos: int) -> Seq<
    char,
>
    decreases t.len() + 1 - pos,
{
    if pos < 0 || pos > t.len() || from.len() == 0 {
        Seq::empty()
    } else {
        match find_from(t, from, pos) {
            None => t.subrange(pos, t.len() as int),
            Some(i) => {
                proof {
                    lemma_find_from(t, from, pos);
                }
                t.subrange(pos, i) + to + replace_from(t, from, to, i + from.len())
            },
        }
    }
}

/// `t` with each non-overlapping occurrence of the non-empty `from` replaced by `to`.
pub open spec fn replace_seq(t: Seq<char>, from: Seq<char>, to: Seq<char>) -> Seq<char> {
    replace_from(t, from, to, 0)
}

/// `t` with each non-overlapping occurrence of the non-empty `from` replaced by `to`.
pub fn replace_chars(t: &[char], from: &str, to: &str) -> (r: Vec<char>)
    requires
        from@.len() > 0,
    ensures
        r@ == replace_seq(t@, from@, to@),
{
    let f = chars_of(from);
    let tc = chars_of(to);
    let n = t.len();
    let fl = f.len();
    let mut out: Vec<char> = Vec::new();
    let mut pos: usize = 0;
    loop
        invariant
            n == t@.len(),
            fl == f@.len(),
            f@ == from@,
            tc@ == to@,
            fl > 0,
            pos <= n,
            out@ + replace_from(t@, from@, to@, pos as int) == replace_seq(t@, from@, to@),
        decreases n + 1 - pos,
    {
        proof {
            lemma_find_from(t@, from@, pos as int);
        }
        match find_from_exec(t, f.as_slice(), pos) {
            None => {
                let rest = copy_range(t, pos, n);
                let ghost old_out = out@;
                append_all(&mut out, rest.as_slice());
                assert(out@ == old_out + replace_from(t@, from@, to@, pos as int));
                return out;
            },
            Some(i) => {
                let piece = copy_range(t, pos, i);
                let ghost old_out = out@;
                append_all(&mut out, piece.as_slice());
                append_all(&mut out, tc.as_slice());
                assert(out@ + replace_from(t@, from@, to@, i + fl) =~= old_out + replace_from(
                    t@,
                    from@,
                    to@,
                    pos as int,
                ));
                pos = i + fl;
            },
        }
    }
}

/// The lines joined with `sep` between them (`[String]::join`).
pub open spec fn join_seq(ls: Seq<Seq<char>>, sep: Seq<char>) -> Seq<char>
    decreases ls.len(),
{
    if ls.len() == 0 {
        Seq::empty()
    } else if ls.len() == 1 {
        ls[0]
    } else {
        join_seq(ls.drop_last(), sep) + sep + ls.last()
    }
}

/// Each line with its trailing white space dropped.
pub open spec fn trim_end_each(ls: Seq<Seq<char>>) -> Seq<Seq<char>> {
    ls.map_values(|l: Seq<char>| trim_end_seq(l))
}

/// The lines of `t`, trailing white space dropped from each, joined with newlines.
pub fn trim_line_ends(t: &[char]) -> (r: Vec<char>)
    ensures
        r@ == join_seq(trim_end_each(lines_seq(t@)), "\n"@),
{
    let lines = lines_of(t);
    let ghost ls = trim_end_each(views(lines@));
    let mut out: Vec<char> = Vec::new();
    let mut i: usize = 0;
    proof {
        reveal_strlit("\n");
    }
    assert(ls.take(0) == Seq::<Seq<char>>::empty());
    while i < lines.len()
        invariant
            ls == trim_end_each(views(lines@)),
            views(lines@) == lines_seq(t@),
            i <= lines@.len(),
            out@ == join_seq(ls.take(i as int), "\n"@),
        decreases lines.len() - i,
    {
        let l = trim_end_chars(lines[i].as_slice());
        assert(views(lines@)[i as int] == lines@[i as int]@);
        assert(ls[i as int] == l@);
        assert(ls.take(i + 1).drop_last() == ls.take(i as int));
        assert(ls.take(i + 1).last() == l@);
        let ghost before = out@;
        if i > 0 {
            out.push('\n');
            proof {
                reveal_strlit("\n");
            }
            assert("\n"@ == seq!['\n']);
            assert(out@ == before + "\n"@);
        } else {
            assert(ls.take(1) == seq![l@]);
        }
        append_all(&mut out, l.as_slice());
        i = i + 1;
    }
    assert(ls.take(lines@.len() as int) == ls);
    out
}

} // verus!

verus! {

/// The decimal digit for `d < 10`.
pub open spec fn digit_char(d: nat) -> char {
    ((d + '0' as u32) as u32) as char
}

/// The decimal numeral of `n`, without leading zeros (`n.to_string()`).
pub open spec fn decimal(n: nat) -> Seq<char>
    decreases n,
{
    if n < 10 {
        seq![digit_char(n)]
    } else {
        decimal(n / 10).push(digit_char(n % 10))
    }
}

/// The decimal numeral of `n`.
pub fn decimal_exec(n: u64) -> (r: Vec<char>)
    ensures
        r@ == decimal(n as nat),
    decreases n,
{
    if n < 10 {
        let mut v: Vec<char> = Vec::new();
        v.push(((n as u32) + ('0' as u32)) as u8 as char);
        proof {
            assert(v@ == seq![digit_char(n as nat)]);
        }
        v
    } else {
        let mut v = decimal_exec(n / 10);
        let d = n % 10;
        v.push(((d as u32) + ('0' as u32)) as u8 as char);
        v
    }
}

/// Reading back the decimal numeral of `n` gives `n`.
pub proof fn law_decimal_reads_back(n: nat, max: nat)
    requires
        n <= max,
    ensures
        parse_digits(decimal(n), max) == Some(n),
{
    lemma_decimal_digits(n);
}

proof fn lemma_decimal_digits(n: nat)
    ensures
        all_digits(decimal(n)),
        digits_value(decimal(n)) == n,
        decimal(n).len() > 0,
    decreases n,
{
    if n < 10 {
        let s = decimal(n);
        assert(s.drop_last() == Seq::<char>::empty());
        assert(s.last() == digit_char(n));
        assert(digit_val(digit_char(n)) == n);
        assert(digits_value(s) == digits_value(s.drop_last()) * 10 + digit_val(s.last()));
    } else {
        lemma_decimal_digits(n / 10);
        let s = decimal(n);
        assert(s.drop_last() == decimal(n / 10));
        assert(s.last() == digit_char(n % 10));
        assert(digit_val(digit_char(n % 10)) == n % 10);
        assert(digits_value(s) == digits_value(s.drop_last()) * 10 + digit_val(s.last()));
        assert(n == (n / 10) * 10 + n % 10) by (nonlinear_arith);
        assert forall|i: int| 0 <= i < s.len() implies is_digit(#[trigger] s[i]) by {
            if i < s.len() - 1 {
                assert(s[i] == decimal(n / 10)[i]);
            }
        }
    }
}

} // verus!
