//! Text helpers over character sequences: prefixes, suffixes, substring
//! search, repeated prefix trimming, replacement, splitting and ASCII
//! case folding, each with its mathematical definition.
use vstd::prelude::*;
use vstd::utf8::is_ascii_chars;

verus! {

broadcast use vstd::seq::group_seq_axioms, vstd::seq_lib::group_seq_properties;

/// `String::push`: appends one character.
#[verifier::external_body]
pub(crate) fn push_char(s: &mut String, c: char)
    ensures
        final(s)@ == old(s)@.push(c),
{
    s.push(c);
}

/// The result of `str::to_uppercase` (Unicode upper-case mapping).
pub uninterp spec fn unicode_upper(s: Seq<char>) -> Seq<char>;

/// The result of `str::to_lowercase` (Unicode lower-case mapping).
pub uninterp spec fn unicode_lower(s: Seq<char>) -> Seq<char>;

/// The upper-case form of an ASCII character: `a`–`z` become `A`–`Z`,
/// others are kept.
pub open spec fn ascii_upper(c: char) -> char {
    if 'a' <= c <= 'z' {
        ((c as u32) - 32) as char
    } else {
        c
    }
}

/// The lower-case form of an ASCII character: `A`–`Z` become `a`–`z`,
/// others are kept.
pub open spec fn ascii_lower(c: char) -> char {
    if 'A' <= c <= 'Z' {
        ((c as u32) + 32) as char
    } else {
        c
    }
}

/// `str::to_uppercase`: the result is a function of the input (Rust's case
/// mapping does not depend on the locale); on ASCII text it maps `a`–`z`
/// to `A`–`Z` and keeps every other character, as the Unicode mapping of
/// ASCII characters does.
#[verifier::external_body]
pub(crate) fn to_uppercase(s: &str) -> (r: String)
    ensures
        r@ == unicode_upper(s@),
        is_ascii_chars(s@) ==> r@ == s@.map_values(|c: char| ascii_upper(c)),
{
    s.to_uppercase()
}

/// `str::to_lowercase`: the result is a function of the input (Rust's case
/// mapping does not depend on the locale); on ASCII text it maps `A`–`Z`
/// to `a`–`z` and keeps every other character, as the Unicode mapping of
/// ASCII characters does.
#[verifier::external_body]
pub(crate) fn to_lowercase(s: &str) -> (r: String)
    ensures
        r@ == unicode_lower(s@),
        is_ascii_chars(s@) ==> r@ == s@.map_values(|c: char| ascii_lower(c)),
{
    s.to_lowercase()
}

/// The characters of `s`, in order.
pub fn chars_of(s: &str) -> (v: Vec<char>)
    ensures
        v@ == s@,
{
    let mut v: Vec<char> = Vec::new();
    for c in it: s.chars()
        invariant
            v@ == it.seq().take(it.index() as int),
    {
        v.push(c);
    }
    v
}

/// The string made of the characters of `v`, in order.
pub fn string_of(v: &Vec<char>) -> (s: String)
    ensures
        s@ == v@,
{
    let mut s = String::new();
    let mut i: usize = 0;
    while i < v.len()
        invariant
            i <= v.len(),
            s@ == v@.take(i as int),
        decreases v.len() - i,
    {
        push_char(&mut s, v[i]);
        assert(v@.take(i as int).push(v@[i as int]) == v@.take(i + 1));
        i = i + 1;
    }
    assert(v@.take(v.len() as int) == v@);
    s
}

/// Appends the characters of `t` to `v`.
pub fn append_chars(v: &mut Vec<char>, t: &Vec<char>)
    ensures
        final(v)@ == old(v)@ + t@,
{
    let mut i: usize = 0;
    while i < t.len()
        invariant
            i <= t.len(),
            v@ == old(v)@ + t@.take(i as int),
        decreases t.len() - i,
    {
        v.push(t[i]);
        assert(t@.take(i as int).push(t@[i as int]) == t@.take(i + 1));
        i = i + 1;
    }
    assert(t@.take(t.len() as int) == t@);
}

/// `p` is a prefix of `s`.
pub open spec fn has_prefix(s: Seq<char>, p: Seq<char>) -> bool {
    p.len() <= s.len() && s.subrange(0, p.len() as int) == p
}

/// `p` is a suffix of `s`.
pub open spec fn has_suffix(s: Seq<char>, p: Seq<char>) -> bool {
    p.len() <= s.len() && s.subrange(s.len() - p.len(), s.len() as int) == p
}

/// `p` occurs in `s` starting at index `i`.
pub open spec fn occurs_at(s: Seq<char>, p: Seq<char>, i: int) -> bool {
    0 <= i && i + p.len() <= s.len() && s.subrange(i, i + p.len()) == p
}

/// `p` occurs somewhere in `s`.
pub open spec fn contains_text(s: Seq<char>, p: Seq<char>) -> bool {
    exists|i: int| occurs_at(s, p, i)
}

/// Whether `a` and `b` hold the same characters.
pub fn eq_chars(a: &Vec<char>, b: &Vec<char>) -> (r: bool)
    ensures
        r == (a@ == b@),
{
    if a.len() != b.len() {
        return false;
    }
    let mut i: usize = 0;
    while i < a.len()
        invariant
            i <= a.len(),
            a.len() == b.len(),
            forall|k: int| 0 <= k < i ==> a@[k] == b@[k],
        decreases a.len() - i,
    {
        if a[i] != b[i] {
            return false;
        }
        i = i + 1;
    }
    assert(a@ =~= b@);
    true
}

/// Whether `p` occurs in `s` at index `i`.
pub fn matches_at(s: &Vec<char>, p: &Vec<char>, i: usize) -> (r: bool)
    ensures
        r == occurs_at(s@, p@, i as int),
{
    if i > s.len() || p.len() > s.len() - i {
        return false;
    }
    let mut j: usize = 0;
    while j < p.len()
        invariant
            j <= p.len(),
            i + p.len() <= s.len(),
            forall|k: int| 0 <= k < j ==> s@[i + k] == p@[k],
        decreases p.len() - j,
    {
        if s[i + j] != p[j] {
            assert(s@.subrange(i as int, i + p.len())[j as int] != p@[j as int]);
            return false;
        }
        j = j + 1;
    }
    assert(s@.subrange(i as int, i + p.len()) == p@);
    true
}

/// Whether `s` starts with `p`.
pub fn starts_with(s: &Vec<char>, p: &Vec<char>) -> (r: bool)
    ensures
        r == has_prefix(s@, p@),
{
    matches_at(s, p, 0)
}

/// Whether `s` ends with `p`.
pub fn ends_with(s: &Vec<char>, p: &Vec<char>) -> (r: bool)
    ensures
        r == has_suffix(s@, p@),
{
    if p.len() > s.len() {
        return false;
    }
    matches_at(s, p, s.len() - p.len())
}

/// Whether `p` occurs in `s`.
pub fn contains(s: &Vec<char>, p: &Vec<char>) -> (r: bool)
    ensures
        r == contains_text(s@, p@),
{
    if p.len() > s.len() {
        assert forall|i: int| !occurs_at(s@, p@, i) by {}
        return false;
    }
    let last = s.len() - p.len();
    let mut i: usize = 0;
    loop
        invariant
            last == s.len() - p.len(),
            i <= last,
            forall|k: int| 0 <= k < i ==> !occurs_at(s@, p@, k),
        ensures
            forall|k: int| 0 <= k <= last ==> !occurs_at(s@, p@, k),
        decreases last - i,
    {
        if matches_at(s, p, i) {
            return true;
        }
        if i == last {
            break;
        }
        i = i + 1;
    }
    assert forall|k: int| !occurs_at(s@, p@, k) by {
        if 0 <= k <= last {
        }
    }
    false
}

/// `s` with every leading occurrence of the non-empty `p` removed, again and
/// again; an empty `p` removes nothing.
pub open spec fn trim_prefix_all(s: Seq<char>, p: Seq<char>) -> Seq<char>
    decreases s.len(),
{
    if p.len() > 0 && has_prefix(s, p) {
        trim_prefix_all(s.subrange(p.len() as int, s.len() as int), p)
    } else {
        s
    }
}

/// The characters of `s` from index `start` on.
pub fn tail_from(s: &Vec<char>, start: usize) -> (r: Vec<char>)
    requires
        start <= s.len(),
    ensures
        r@ == s@.subrange(start as int, s.len() as int),
{
    let mut r: Vec<char> = Vec::new();
    let mut i: usize = start;
    while i < s.len()
        invariant
            start <= i <= s.len(),
            r@ == s@.subrange(start as int, i as int),
        decreases s.len() - i,
    {
        r.push(s[i]);
        assert(s@.subrange(start as int, i as int).push(s@[i as int]) == s@.subrange(
            start as int,
            i + 1,
        ));
        i = i + 1;
    }
    r
}

/// `s` with all repeated leading occurrences of `p` removed.
pub fn trim_start_matches(s: &Vec<char>, p: &Vec<char>) -> (r: Vec<char>)
    ensures
        r@ == trim_prefix_all(s@, p@),
{
    if p.len() == 0 {
        return tail_from(s, 0);
    }
    let mut start: usize = 0;
    while matches_at(s, p, start)
        invariant
            start <= s.len(),
            p.len() > 0,
            trim_prefix_all(s@.subrange(start as int, s.len() as int), p@) == trim_prefix_all(
                s@,
                p@,
            ),
        decreases s.len() - start,
    {
        let ghost rest = s@.subrange(start as int, s.len() as int);
        assert(rest.subrange(0, p.len() as int) == s@.subrange(
            start as int,
            start + p.len(),
        ));
        assert(rest.subrange(p.len() as int, rest.len() as int) == s@.subrange(
            start + p.len(),
            s.len() as int,
        ));
        start = start + p.len();
    }
    let ghost rest = s@.subrange(start as int, s.len() as int);
    assert(!has_prefix(rest, p@)) by {
        if has_prefix(rest, p@) {
            assert(rest.subrange(0, p.len() as int) == s@.subrange(
                start as int,
                start + p.len(),
            ));
        }
    }
    tail_from(s, start)
}

/// `s` with every non-overlapping occurrence of `p`, scanned from the left,
/// replaced by `t`; an empty `p` matches before every character and at the
/// end.
pub open spec fn replace_text(s: Seq<char>, p: Seq<char>, t: Seq<char>) -> Seq<char>
    decreases s.len(),
{
    if p.len() == 0 {
        if s.len() == 0 {
            t
        } else {
            t + seq![s[0]] + replace_text(s.subrange(1, s.len() as int), p, t)
        }
    } else if s.len() < p.len() {
        s
    } else if has_prefix(s, p) {
        t + replace_text(s.subrange(p.len() as int, s.len() as int), p, t)
    } else {
        seq![s[0]] + replace_text(s.subrange(1, s.len() as int), p, t)
    }
}

proof fn lemma_replace_unfold(rest: Seq<char>, p: Seq<char>, t: Seq<char>)
    requires
        rest.len() > 0,
    ensures
        p.len() == 0 ==> replace_text(rest, p, t) == (t + seq![rest[0]]) + replace_text(
            rest.subrange(1, rest.len() as int),
            p,
            t,
        ),
        p.len() > 0 && rest.len() < p.len() ==> replace_text(rest, p, t) == rest,
        p.len() > 0 && rest.len() >= p.len() && has_prefix(rest, p) ==> replace_text(rest, p, t)
            == t + replace_text(rest.subrange(p.len() as int, rest.len() as int), p, t),
        p.len() > 0 && rest.len() >= p.len() && !has_prefix(rest, p) ==> replace_text(rest, p, t)
            == seq![rest[0]] + replace_text(rest.subrange(1, rest.len() as int), p, t),
{
    if p.len() == 0 {
        assert(t + seq![rest[0]] + replace_text(rest.subrange(1, rest.len() as int), p, t) == (t
            + seq![rest[0]]) + replace_text(rest.subrange(1, rest.len() as int), p, t));
    }
}

/// Replaces every occurrence of `p` in `s` by `t`, as `str::replace` does.
#[verifier::spinoff_prover]
pub fn replace_all(s: &Vec<char>, p: &Vec<char>, t: &Vec<char>) -> (r: Vec<char>)
    ensures
        r@ == replace_text(s@, p@, t@),
{
    let mut out: Vec<char> = Vec::new();
    let mut i: usize = 0;
    assert(s@.subrange(0, s.len() as int) == s@);
    while i < s.len()
        invariant
            i <= s.len(),
            out@ + replace_text(s@.subrange(i as int, s.len() as int), p@, t@) == replace_text(
                s@,
                p@,
                t@,
            ),
        decreases s.len() - i,
    {
        let ghost rest = s@.subrange(i as int, s.len() as int);
        let ghost old_out = out@;
        proof {
            lemma_replace_unfold(rest, p@, t@);
        }
        if p.len() == 0 {
            let mut chunk: Vec<char> = Vec::new();
            append_chars(&mut chunk, t);
            chunk.push(s[i]);
            assert(chunk@ == t@ + seq![rest[0]]);
            append_chars(&mut out, &chunk);
            assert(rest.subrange(1, rest.len() as int) == s@.subrange(i + 1, s.len() as int));
            i = i + 1;
            assert(out@ + replace_text(s@.subrange(i as int, s.len() as int), p@, t@) == old_out
                + (chunk@ + replace_text(rest.subrange(1, rest.len() as int), p@, t@)));
        } else if p.len() > s.len() - i {
            let tail = tail_from(s, i);
            append_chars(&mut out, &tail);
            i = s.len();
            assert(s@.subrange(i as int, s.len() as int) == Seq::<char>::empty());
            assert(out@ + replace_text(s@.subrange(i as int, s.len() as int), p@, t@) == out@);
        } else if matches_at(s, p, i) {
            assert(rest.subrange(0, p.len() as int) == s@.subrange(i as int, i + p.len()));
            append_chars(&mut out, t);
            assert(rest.subrange(p.len() as int, rest.len() as int) == s@.subrange(
                i + p.len(),
                s.len() as int,
            ));
            i = i + p.len();
            assert(out@ + replace_text(s@.subrange(i as int, s.len() as int), p@, t@) == old_out
                + (t@ + replace_text(rest.subrange(p.len() as int, rest.len() as int), p@, t@)));
        } else {
            assert(rest.subrange(0, p.len() as int) == s@.subrange(i as int, i + p.len()));
            out.push(s[i]);
            assert(rest.subrange(1, rest.len() as int) == s@.subrange(i + 1, s.len() as int));
            i = i + 1;
            assert(out@ + replace_text(s@.subrange(i as int, s.len() as int), p@, t@) == old_out
                + (seq![rest[0]] + replace_text(rest.subrange(1, rest.len() as int), p@, t@)));
        }
    }
    assert(s@.subrange(s.len() as int, s.len() as int) == Seq::<char>::empty());
    if p.len() == 0 {
        append_chars(&mut out, t);
    }
    out
}

/// `s` cut at every `sep`, left to right: each character either ends the
/// current piece (when it is `sep`) or extends it.
pub open spec fn split_text(s: Seq<char>, sep: char) -> Seq<Seq<char>>
    decreases s.len(),
{
    if s.len() == 0 {
        seq![Seq::empty()]
    } else {
        let r = split_text(s.drop_last(), sep);
        if s.last() == sep {
            r.push(Seq::empty())
        } else {
            r.update(r.len() - 1, r.last().push(s.last()))
        }
    }
}

pub proof fn lemma_split_text_nonempty(s: Seq<char>, sep: char)
    ensures
        split_text(s, sep).len() >= 1,
    decreases s.len(),
{
    if s.len() > 0 {
        lemma_split_text_nonempty(s.drop_last(), sep);
    }
}

/// The pieces of `s` between occurrences of `sep`, as `str::split` gives them.
pub fn split_on(s: &Vec<char>, sep: char) -> (r: Vec<Vec<char>>)
    ensures
        r@.len() == split_text(s@, sep).len(),
        forall|j: int| 0 <= j < r@.len() ==> #[trigger] r@[j]@ == split_text(s@, sep)[j],
{
    let mut done: Vec<Vec<char>> = Vec::new();
    let mut cur: Vec<char> = Vec::new();
    let mut i: usize = 0;
    while i < s.len()
        invariant
            i <= s.len(),
            done@.len() + 1 == split_text(s@.take(i as int), sep).len(),
            forall|j: int|
                0 <= j < done@.len() ==> #[trigger] done@[j]@ == split_text(
                    s@.take(i as int),
                    sep,
                )[j],
            cur@ == split_text(s@.take(i as int), sep).last(),
        decreases s.len() - i,
    {
        proof {
            lemma_split_text_nonempty(s@.take(i as int), sep);
            assert(s@.take(i + 1).drop_last() == s@.take(i as int));
            assert(s@.take(i + 1).last() == s@[i as int]);
        }
        if s[i] == sep {
            done.push(cur);
            cur = Vec::new();
        } else {
            cur.push(s[i]);
        }
        i = i + 1;
    }
    done.push(cur);
    assert(s@.take(s.len() as int) == s@);
    done
}

/// Code of `c` with ASCII upper-case letters folded to lower case.
pub open spec fn ascii_fold(c: char) -> int {
    if 65 <= (c as u32) <= 90 {
        (c as u32) + 32
    } else {
        c as u32 as int
    }
}

/// `a` and `b` are equal up to ASCII case.
pub open spec fn eq_ascii_case(a: Seq<char>, b: Seq<char>) -> bool {
    a.len() == b.len() && forall|i: int| 0 <= i < a.len() ==> ascii_fold(a[i]) == ascii_fold(b[i])
}

fn fold_char(c: char) -> (r: u32)
    ensures
        r == ascii_fold(c),
{
    let u = c as u32;
    if 65 <= u && u <= 90 {
        u + 32
    } else {
        u
    }
}

/// Whether `a` and `b` are equal when ASCII letters are compared without
/// regard to case, as `str::eq_ignore_ascii_case` does.
pub fn eq_ignore_ascii_case(a: &Vec<char>, b: &Vec<char>) -> (r: bool)
    ensures
        r == eq_ascii_case(a@, b@),
{
    if a.len() != b.len() {
        return false;
    }
    let mut i: usize = 0;
    while i < a.len()
        invariant
            i <= a.len(),
            a.len() == b.len(),
            forall|k: int| 0 <= k < i ==> ascii_fold(a@[k]) == ascii_fold(b@[k]),
        decreases a.len() - i,
    {
        if fold_char(a[i]) != fold_char(b[i]) {
            return false;
        }
        i = i + 1;
    }
    true
}

} // verus!
