//! Character sequences: the operations on text that the directive grammar and
//! the descriptor builders are made of, each with its meaning on `Seq<char>`.

use vstd::prelude::*;

verus! {

/// `String::push` of the standard library: it appends the character to the
/// end of the string.
pub assume_specification[ String::push ](s: &mut String, ch: char)
    ensures
        final(s)@ == old(s)@.push(ch),
;

/// The characters of `s`, in order.
pub fn chars_of(s: &str) -> (r: Vec<char>)
    ensures
        r@ == s@,
{
    let mut r: Vec<char> = Vec::new();
    for c in it: s.chars()
        invariant
            r@ == it.seq().take(it.index()),
            it.seq() == s@,
    {
        r.push(c);
    }
    r
}

/// The string made of the characters of `v`, in order.
pub fn string_of(v: &Vec<char>) -> (r: String)
    ensures
        r@ == v@,
{
    let mut r = String::new();
    let mut i: usize = 0;
    while i < v.len()
        invariant
            i <= v.len(),
            r@ == v@.take(i as int),
        decreases v.len() - i,
    {
        r.push(v[i]);
        i += 1;
    }
    r
}

/// Appends the characters of `tail` to `out`.
pub fn push_all(out: &mut Vec<char>, tail: &Vec<char>)
    ensures
        final(out)@ == old(out)@ + tail@,
{
    let mut i: usize = 0;
    while i < tail.len()
        invariant
            i <= tail.len(),
            out@ == old(out)@ + tail@.take(i as int),
        decreases tail.len() - i,
    {
        out.push(tail[i]);
        i += 1;
    }
}

/// Appends the characters of `tail` to `out`.
pub fn push_str(out: &mut Vec<char>, tail: &str)
    ensures
        final(out)@ == old(out)@ + tail@,
{
    let chars = chars_of(tail);
    push_all(out, &chars);
}

/// Whether two character vectors hold the same text.
pub fn same_chars(a: &Vec<char>, b: &Vec<char>) -> (r: bool)
    ensures
        r == (a@ == b@),
{
    if a.len() != b.len() {
        return false;
    }
    let mut i: usize = 0;
    while i < a.len()
        invariant
            i <= a.len(),
            a.len() == b.len(),
            a@.take(i as int) == b@.take(i as int),
        decreases a.len() - i,
    {
        if a[i] != b[i] {
            return false;
        }
        i += 1;
    }
    assert(a@ == a@.take(a.len() as int));
    assert(b@ == b@.take(b.len() as int));
    true
}

/// Whether `v` holds exactly the text of `lit`.
pub fn is_text(v: &Vec<char>, lit: &str) -> (r: bool)
    ensures
        r == (v@ == lit@),
{
    let chars = chars_of(lit);
    same_chars(v, &chars)
}

/// Whether two strings hold the same text.
pub fn same_text(a: &str, b: &str) -> (r: bool)
    ensures
        r == (a@ == b@),
{
    let x = chars_of(a);
    let y = chars_of(b);
    same_chars(&x, &y)
}

/// Appends a copy of `text` to `out`.
pub fn push_text(out: &mut Vec<String>, text: &str)
    ensures
        final(out).deep_view() == old(out).deep_view().push(text@),
{
    out.push(String::from_str(text));
}

/// Appends a copy of each string of `more` to `out`.
pub fn push_strings(out: &mut Vec<String>, more: &Vec<String>)
    ensures
        final(out).deep_view() == old(out).deep_view() + more.deep_view(),
{
    let mut i: usize = 0;
    while i < more.len()
        invariant
            i <= more.len(),
            out.deep_view() == old(out).deep_view() + more.deep_view().take(i as int),
        decreases more.len() - i,
    {
        let ghost before = out.deep_view();
        out.push(more[i].clone());
        assert(out.deep_view() =~= before.push(more@[i as int]@));
        i += 1;
    }
}

/// The characters of `v` from index `from` up to, not including, `to`.
pub fn slice_of(v: &Vec<char>, from: usize, to: usize) -> (r: Vec<char>)
    requires
        from <= to <= v.len(),
    ensures
        r@ == v@.subrange(from as int, to as int),
{
    let mut r: Vec<char> = Vec::new();
    let mut i: usize = from;
    while i < to
        invariant
            from <= i <= to <= v.len(),
            r@ == v@.subrange(from as int, i as int),
        decreases to - i,
    {
        r.push(v[i]);
        i += 1;
    }
    r
}

/// White space as Unicode defines it (the property `White_Space`).
pub open spec fn is_space(c: char) -> bool {
    ||| '\u{9}' <= c <= '\u{d}'
    ||| c == ' '
    ||| c == '\u{85}'
    ||| c == '\u{a0}'
    ||| c == '\u{1680}'
    ||| '\u{2000}' <= c <= '\u{200a}'
    ||| c == '\u{2028}'
    ||| c == '\u{2029}'
    ||| c == '\u{202f}'
    ||| c == '\u{205f}'
    ||| c == '\u{3000}'
}

/// Whether `c` is white space.
pub fn is_whitespace(c: char) -> (r: bool)
    ensures
        r == is_space(c),
{
    ('\u{9}' <= c && c <= '\u{d}') || c == ' ' || c == '\u{85}' || c == '\u{a0}' || c
        == '\u{1680}' || ('\u{2000}' <= c && c <= '\u{200a}') || c == '\u{2028}' || c
        == '\u{2029}' || c == '\u{202f}' || c == '\u{205f}' || c == '\u{3000}'
}

/// `s` without its leading white space.
pub open spec fn trim_start(s: Seq<char>) -> Seq<char>
    decreases s.len(),
{
    if s.len() > 0 && is_space(s[0]) {
        trim_start(s.skip(1))
    } else {
        s
    }
}

/// `s` without its trailing white space.
pub open spec fn trim_end(s: Seq<char>) -> Seq<char>
    decreases s.len(),
{
    if s.len() > 0 && is_space(s.last()) {
        trim_end(s.drop_last())
    } else {
        s
    }
}

/// `s` without its leading and trailing white space.
pub open spec fn trim(s: Seq<char>) -> Seq<char> {
    trim_end(trim_start(s))
}

/// `v` without its leading and trailing white space.
pub fn trimmed(v: &Vec<char>) -> (r: Vec<char>)
    ensures
        r@ == trim(v@),
{
    let mut from: usize = 0;
    assert(v@.skip(0) == v@);
    while from < v.len() && is_whitespace(v[from])
        invariant
            from <= v.len(),
            trim_start(v@) == trim_start(v@.skip(from as int)),
        decreases v.len() - from,
    {
        assert(v@.skip(from as int).skip(1) == v@.skip(from + 1));
        from += 1;
    }
    let mut to: usize = v.len();
    while to > from && is_whitespace(v[to - 1])
        invariant
            from <= to <= v.len(),
            trim_start(v@) == v@.skip(from as int),
            trim(v@) == trim_end(v@.subrange(from as int, to as int)),
        decreases to,
    {
        assert(v@.subrange(from as int, to as int).drop_last() == v@.subrange(
            from as int,
            to - 1,
        ));
        to -= 1;
    }
    slice_of(v, from, to)
}

/// The index of the first `c` in `s`, or the length of `s` where it holds none.
pub open spec fn find_char(s: Seq<char>, c: char) -> int
    decreases s.len(),
{
    if s.len() == 0 || s[0] == c {
        0
    } else {
        1 + find_char(s.skip(1), c)
    }
}

/// `find_char` gives an index within the length, nothing before it is `c`, and
/// what stands at it is.
pub proof fn lemma_find_char(s: Seq<char>, c: char)
    ensures
        0 <= find_char(s, c) <= s.len(),
        forall|i: int| 0 <= i < find_char(s, c) ==> s[i] != c,
        find_char(s, c) < s.len() ==> s[find_char(s, c)] == c,
    decreases s.len(),
{
    if s.len() > 0 && s[0] != c {
        lemma_find_char(s.skip(1), c);
        assert forall|i: int| 0 <= i < find_char(s, c) implies s[i] != c by {
            if i > 0 {
                assert(s.skip(1)[i - 1] == s[i]);
            }
        }
    }
}

/// The first `c` of a text that begins with a run without `c` stands where
/// the run ends, or further on.
pub proof fn lemma_find_char_after(a: Seq<char>, b: Seq<char>, c: char)
    requires
        forall|i: int| 0 <= i < a.len() ==> a[i] != c,
    ensures
        find_char(a + b, c) == a.len() + find_char(b, c),
    decreases a.len(),
{
    if a.len() > 0 {
        assert((a + b).skip(1) == a.skip(1) + b);
        lemma_find_char_after(a.skip(1), b, c);
    }
}

/// The index of the first `c` at or after `from`, or the length.
pub fn find_from(v: &Vec<char>, from: usize, c: char) -> (r: usize)
    requires
        from <= v.len(),
    ensures
        from <= r <= v.len(),
        r == from + find_char(v@.skip(from as int), c),
        forall|i: int| from <= i < r ==> v@[i] != c,
        r < v.len() ==> v@[r as int] == c,
{
    proof {
        let rest = v@.skip(from as int);
        lemma_find_char(rest, c);
        assert forall|i: int| from <= i < from + find_char(rest, c) implies v@[i] != c by {
            assert(rest[i - from] == v@[i]);
        }
    }
    let mut i: usize = from;
    while i < v.len() && v[i] != c
        invariant
            from <= i <= v.len(),
            find_char(v@.skip(from as int), c) == (i - from) + find_char(v@.skip(i as int), c),
        decreases v.len() - i,
    {
        assert(v@.skip(i as int).skip(1) == v@.skip(i + 1));
        i += 1;
    }
    i
}

/// The text before the first `sep` and the text after it, where `s` holds one.
pub open spec fn split_once(s: Seq<char>, sep: char) -> Option<(Seq<char>, Seq<char>)> {
    let at = find_char(s, sep);
    if at < s.len() {
        Some((s.take(at), s.skip(at + 1)))
    } else {
        None
    }
}

/// The text before the first `sep` of `v` and the text after it.
pub fn split_at_first(v: &Vec<char>, sep: char) -> (r: Option<(Vec<char>, Vec<char>)>)
    ensures
        match r {
            Some((head, tail)) => split_once(v@, sep) == Some((head@, tail@)),
            None => split_once(v@, sep) is None,
        },
{
    let at = find_from(v, 0, sep);
    assert(v@.skip(0) == v@);
    if at < v.len() {
        let head = slice_of(v, 0, at);
        let tail = slice_of(v, at + 1, v.len());
        Some((head, tail))
    } else {
        None
    }
}

/// The deep view of a vector of characters is its view.
pub proof fn lemma_chars_deep_view(v: Vec<char>)
    ensures
        v.deep_view() == v@,
{
}

/// The pieces of `s` between its separators: one more piece than separators.
pub open spec fn split(s: Seq<char>, sep: char) -> Seq<Seq<char>>
    decreases s.len(),
{
    let at = find_char(s, sep);
    if 0 <= at < s.len() {
        seq![s.take(at)] + split(s.skip(at + 1), sep)
    } else {
        seq![s]
    }
}

/// The pieces of `v` between its separators.
pub fn split_chars(v: &Vec<char>, sep: char) -> (r: Vec<Vec<char>>)
    ensures
        r.deep_view() == split(v@, sep),
{
    let mut r: Vec<Vec<char>> = Vec::new();
    let mut from: usize = 0;
    assert(v@.skip(0) == v@);
    loop
        invariant_except_break
            from <= v.len(),
            split(v@, sep) == r.deep_view() + split(v@.skip(from as int), sep),
        ensures
            r.deep_view() == split(v@, sep),
        decreases v.len() - from,
    {
        let ghost before = r.deep_view();
        let ghost rest = v@.skip(from as int);
        let at = find_from(v, from, sep);
        let piece = slice_of(v, from, at);
        let ghost text = piece@;
        r.push(piece);
        assert(r.deep_view() =~= before.push(text)) by {
            lemma_chars_deep_view(r@[r.len() - 1]);
        }
        assert(rest.take(at - from) == text);
        if at < v.len() {
            assert(rest.skip(at - from + 1) == v@.skip(at + 1));
            from = at + 1;
        } else {
            break;
        }
    }
    r
}

/// Whether `pat` stands in `s` at index `at`.
pub open spec fn occurs_at(s: Seq<char>, pat: Seq<char>, at: int) -> bool {
    0 <= at && at + pat.len() <= s.len() && s.subrange(at, at + pat.len()) == pat
}

/// Whether `pat` stands in `v` at index `at`.
pub fn has_at(v: &Vec<char>, pat: &Vec<char>, at: usize) -> (r: bool)
    ensures
        r == occurs_at(v@, pat@, at as int),
{
    if at > v.len() || pat.len() > v.len() - at {
        return false;
    }
    let mut i: usize = 0;
    while i < pat.len()
        invariant
            i <= pat.len(),
            at + pat.len() <= v.len(),
            v@.subrange(at as int, at + i) == pat@.take(i as int),
        decreases pat.len() - i,
    {
        if v[at + i] != pat[i] {
            return false;
        }
        i += 1;
    }
    assert(pat@.take(pat.len() as int) == pat@);
    true
}

/// Whether `s` begins with `pat`.
pub open spec fn starts_with(s: Seq<char>, pat: Seq<char>) -> bool {
    occurs_at(s, pat, 0)
}

/// Whether `s` ends with `pat`.
pub open spec fn ends_with(s: Seq<char>, pat: Seq<char>) -> bool {
    occurs_at(s, pat, s.len() - pat.len())
}

/// Whether `pat` stands somewhere in `s`.
pub open spec fn contains_text(s: Seq<char>, pat: Seq<char>) -> bool {
    exists|at: int| occurs_at(s, pat, at)
}

/// Whether `v` begins with `pat`.
pub fn begins_with(v: &Vec<char>, pat: &str) -> (r: bool)
    ensures
        r == starts_with(v@, pat@),
{
    let p = chars_of(pat);
    has_at(v, &p, 0)
}

/// Whether `v` ends with `pat`.
pub fn finishes_with(v: &Vec<char>, pat: &str) -> (r: bool)
    ensures
        r == ends_with(v@, pat@),
{
    let p = chars_of(pat);
    if p.len() > v.len() {
        return false;
    }
    has_at(v, &p, v.len() - p.len())
}

/// Whether `pat` stands somewhere in `v`.
pub fn holds_text(v: &Vec<char>, pat: &str) -> (r: bool)
    ensures
        r == contains_text(v@, pat@),
{
    let p = chars_of(pat);
    if p.len() > v.len() {
        return false;
    }
    let last: usize = v.len() - p.len();
    let mut at: usize = 0;
    loop
        invariant
            at <= last,
            last == v.len() - p.len(),
            p@ == pat@,
            forall|k: int| 0 <= k < at ==> !occurs_at(v@, p@, k),
        decreases last - at,
    {
        if has_at(v, &p, at) {
            return true;
        }
        if at == last {
            return false;
        }
        at += 1;
    }
}

} // verus!
