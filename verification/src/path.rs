//! Field paths into JSON payloads.
//!
//! A path such as `sensor.readings[0].value` is cut at every `.`; each piece
//! names an object member, and may end in one or more array indexes written
//! `[n]`. A piece whose brackets do not have that form names a member
//! literally.
use vstd::prelude::*;

use crate::json::{
    json_seq_view, lemma_json_seq_view, member_lookup, member_seq_view, object_get, JsonValue,
    JsonView,
};
use crate::text::{split_on, split_text, string_of, tail_from};

verus! {

broadcast use vstd::std_specs::vec::group_vec_axioms, vstd::seq::group_seq_axioms;

/// `c` is an ASCII decimal digit.
pub open spec fn is_digit(c: char) -> bool {
    48 <= (c as u32) <= 57
}

/// The decimal number that the digits `d` spell.
pub open spec fn digits_value(d: Seq<char>) -> nat
    decreases d.len(),
{
    if d.len() == 0 {
        0
    } else {
        digits_value(d.drop_last()) * 10 + ((d.last() as u32) - 48) as nat
    }
}

/// The first index from `i` on that is the end of `r` or holds a non-digit.
pub open spec fn digit_run_end(r: Seq<char>, i: int) -> int
    decreases r.len() - i,
{
    if i < 0 || i >= r.len() || !is_digit(r[i]) {
        i
    } else {
        digit_run_end(r, i + 1)
    }
}

/// The indexes that `r` spells when it is a run of groups `[digits]` and
/// nothing else.
pub open spec fn index_groups(r: Seq<char>) -> Option<Seq<nat>>
    decreases r.len(),
{
    if r.len() == 0 {
        Some(Seq::empty())
    } else if r[0] != '[' {
        None
    } else {
        let j = digit_run_end(r, 1);
        if 1 < j < r.len() && r[j] == ']' {
            match index_groups(r.subrange(j + 1, r.len() as int)) {
                Some(rest) => Some(seq![digits_value(r.subrange(1, j))] + rest),
                None => None,
            }
        } else {
            None
        }
    }
}

/// The index of the first `c` in `s` at or after `i`, or the length of `s`.
pub open spec fn first_index(s: Seq<char>, c: char, i: int) -> int
    decreases s.len() - i,
{
    if i < 0 || i >= s.len() || s[i] == c {
        i
    } else {
        first_index(s, c, i + 1)
    }
}

/// The member name and indexes of a path piece with a well-formed bracket
/// suffix; `None` for a piece without brackets or with ill-formed ones.
pub open spec fn parse_segment(seg: Seq<char>) -> Option<(Seq<char>, Seq<nat>)> {
    let k = first_index(seg, '[', 0);
    if k >= seg.len() {
        None
    } else {
        match index_groups(seg.subrange(k, seg.len() as int)) {
            Some(idx) => Some((seg.subrange(0, k), idx)),
            None => None,
        }
    }
}

/// The member `key` of `v`, when `v` is an object that has it.
pub open spec fn step_key(v: JsonView, key: Seq<char>) -> Option<JsonView> {
    match v {
        JsonView::Object(m) => member_lookup(m, key),
        _ => None,
    }
}

/// Item `i` of `v`, when `v` is an array that long.
pub open spec fn step_index(v: JsonView, i: nat) -> Option<JsonView> {
    match v {
        JsonView::Array(a) => if i < a.len() {
            Some(a[i as int])
        } else {
            None
        },
        _ => None,
    }
}

/// `v` indexed by each of `idx` in turn.
pub open spec fn apply_indices(v: JsonView, idx: Seq<nat>) -> Option<JsonView>
    decreases idx.len(),
{
    if idx.len() == 0 {
        Some(v)
    } else {
        match step_index(v, idx[0]) {
            Some(w) => apply_indices(w, idx.subrange(1, idx.len() as int)),
            None => None,
        }
    }
}

/// `v` followed along one path piece.
pub open spec fn step_segment(v: JsonView, seg: Seq<char>) -> Option<JsonView> {
    match parse_segment(seg) {
        Some((name, idx)) => {
            let base = if name.len() == 0 {
                Some(v)
            } else {
                step_key(v, name)
            };
            match base {
                Some(b) => apply_indices(b, idx),
                None => None,
            }
        },
        None => step_key(v, seg),
    }
}

/// `v` followed along each piece of `segs` in turn.
pub open spec fn lookup_path(v: JsonView, segs: Seq<Seq<char>>) -> Option<JsonView>
    decreases segs.len(),
{
    if segs.len() == 0 {
        Some(v)
    } else {
        match step_segment(v, segs[0]) {
            Some(w) => lookup_path(w, segs.subrange(1, segs.len() as int)),
            None => None,
        }
    }
}

/// The value that the field path `field` designates in `v`.
pub open spec fn lookup_field(v: JsonView, field: Seq<char>) -> Option<JsonView> {
    lookup_path(v, split_text(field, '.'))
}

// ---------------------------------------------------------------------------

fn find_char(s: &Vec<char>, c: char) -> (k: usize)
    ensures
        k == first_index(s@, c, 0),
{
    let mut i: usize = 0;
    while i < s.len() && s[i] != c
        invariant
            i <= s.len(),
            first_index(s@, c, i as int) == first_index(s@, c, 0),
        decreases s.len() - i,
    {
        i = i + 1;
    }
    i
}

fn digits_end(r: &Vec<char>, start: usize) -> (j: usize)
    requires
        start <= r.len(),
    ensures
        j == digit_run_end(r@, start as int),
        start <= j <= r.len(),
{
    let mut j: usize = start;
    while j < r.len() && 48 <= (r[j] as u32) && (r[j] as u32) <= 57
        invariant
            start <= j <= r.len(),
            digit_run_end(r@, j as int) == digit_run_end(r@, start as int),
        decreases r.len() - j,
    {
        j = j + 1;
    }
    j
}

/// The value of the digits `r[start..end]`, or `None` when it exceeds
/// `usize::MAX`.
fn digits_number(r: &Vec<char>, start: usize, end: usize) -> (n: Option<usize>)
    requires
        start <= end <= r.len(),
        forall|k: int| start <= k < end ==> is_digit(#[trigger] r@[k]),
    ensures
        n matches Some(x) ==> x == digits_value(r@.subrange(start as int, end as int)),
        n is None ==> digits_value(r@.subrange(start as int, end as int)) > usize::MAX,
{
    let mut value: usize = 0;
    let mut overflow = false;
    let mut k: usize = start;
    while k < end
        invariant
            start <= k <= end <= r.len(),
            forall|q: int| start <= q < end ==> is_digit(#[trigger] r@[q]),
            !overflow ==> value == digits_value(r@.subrange(start as int, k as int)),
            overflow ==> digits_value(r@.subrange(start as int, k as int)) > usize::MAX,
        decreases end - k,
    {
        let ghost before = r@.subrange(start as int, k as int);
        assert(r@.subrange(start as int, k + 1).drop_last() =~= before);
        assert(r@.subrange(start as int, k + 1).last() == r@[k as int]);
        let d = (r[k] as u32 - 48) as usize;
        if !overflow {
            if value > (usize::MAX - d) / 10 {
                overflow = true;
            } else {
                value = value * 10 + d;
            }
        }
        k = k + 1;
    }
    if overflow {
        None
    } else {
        Some(value)
    }
}

/// The indexes spelled by `r[start..]` when it is a run of `[digits]`
/// groups; an index too large for `usize` is `None`.
fn parse_groups(r: &Vec<char>, start: usize) -> (out: Option<Vec<Option<usize>>>)
    requires
        start <= r.len(),
    ensures
        match (out, index_groups(r@.subrange(start as int, r.len() as int))) {
            (Some(v), Some(idx)) => v@.len() == idx.len() && forall|q: int|
                0 <= q < idx.len() ==> match #[trigger] v@[q] {
                    Some(x) => x == idx[q],
                    None => idx[q] > usize::MAX,
                },
            (None, None) => true,
            _ => false,
        },
    decreases r.len() - start,
{
    let ghost rest = r@.subrange(start as int, r.len() as int);
    if start == r.len() {
        return Some(Vec::new());
    }
    assert(rest[0] == r@[start as int]);
    if r[start] != '[' {
        return None;
    }
    let j = digits_end(r, start + 1);
    proof {
        lemma_digit_run_shift(r@, start as int, 1);
    }
    if j > start + 1 && j < r.len() && r[j] == ']' {
        proof {
            lemma_digit_run_all_digits(r@, start as int + 1);
            assert(rest.subrange(1, j - start) =~= r@.subrange(start + 1, j as int));
            assert(rest.subrange(j - start + 1, rest.len() as int) =~= r@.subrange(
                j + 1,
                r.len() as int,
            ));
        }
        let first = digits_number(r, start + 1, j);
        match parse_groups(r, j + 1) {
            Some(tail) => {
                let ghost tail_idx = index_groups(r@.subrange(j + 1, r.len() as int))->0;
                let mut v: Vec<Option<usize>> = Vec::new();
                v.push(first);
                let mut q: usize = 0;
                while q < tail.len()
                    invariant
                        q <= tail.len(),
                        v@.len() == q + 1,
                        v@[0] == first,
                        forall|w: int| 0 <= w < q ==> v@[w + 1] == tail@[w],
                    decreases tail.len() - q,
                {
                    v.push(tail[q]);
                    q = q + 1;
                }
                proof {
                    let idx = seq![digits_value(r@.subrange(start + 1, j as int))] + tail_idx;
                    assert(index_groups(rest) == Some(idx));
                    assert forall|w: int| 0 <= w < idx.len() implies match #[trigger] v@[w] {
                        Some(x) => x == idx[w],
                        None => idx[w] > usize::MAX,
                    } by {
                        if w > 0 {
                            assert(v@[w] == tail@[w - 1]);
                            assert(idx[w] == tail_idx[w - 1]);
                        }
                    }
                }
                Some(v)
            },
            None => None,
        }
    } else {
        None
    }
}

proof fn lemma_digit_run_shift(r: Seq<char>, start: int, i: int)
    requires
        0 <= start <= r.len(),
        1 <= i,
    ensures
        digit_run_end(r.subrange(start, r.len() as int), i) == digit_run_end(r, start + i) - start,
    decreases r.len() - (start + i),
{
    let rest = r.subrange(start, r.len() as int);
    if start + i < r.len() && is_digit(r[start + i]) {
        lemma_digit_run_shift(r, start, i + 1);
    }
}

proof fn lemma_digit_run_all_digits(r: Seq<char>, i: int)
    requires
        0 <= i <= r.len(),
    ensures
        i <= digit_run_end(r, i) <= r.len(),
        forall|k: int| i <= k < digit_run_end(r, i) ==> is_digit(#[trigger] r[k]),
    decreases r.len() - i,
{
    if i < r.len() && is_digit(r[i]) {
        lemma_digit_run_all_digits(r, i + 1);
    }
}

/// The member name and indexes of a path piece with a well-formed bracket
/// suffix.
fn segment_parts(seg: &Vec<char>) -> (out: Option<(Vec<char>, Vec<Option<usize>>)>)
    ensures
        match (out, parse_segment(seg@)) {
            (Some((name, v)), Some((pname, idx))) => name@ == pname && v@.len() == idx.len()
                && forall|q: int|
                0 <= q < idx.len() ==> match #[trigger] v@[q] {
                    Some(x) => x == idx[q],
                    None => idx[q] > usize::MAX,
                },
            (None, None) => true,
            _ => false,
        },
{
    let k = find_char(seg, '[');
    if k >= seg.len() {
        return None;
    }
    match parse_groups(seg, k) {
        Some(v) => {
            let mut name: Vec<char> = Vec::new();
            let mut i: usize = 0;
            while i < k
                invariant
                    i <= k < seg.len(),
                    name@ == seg@.subrange(0, i as int),
                decreases k - i,
            {
                name.push(seg[i]);
                assert(seg@.subrange(0, i as int).push(seg@[i as int]) =~= seg@.subrange(
                    0,
                    i + 1,
                ));
                i = i + 1;
            }
            Some((name, v))
        },
        None => None,
    }
}

/// The member `key` of `v`, when `v` is an object that has it.
fn member<'a>(v: &'a JsonValue, key: &Vec<char>) -> (r: Option<&'a JsonValue>)
    ensures
        match r {
            Some(w) => step_key(v@, key@) == Some(w@),
            None => step_key(v@, key@) is None,
        },
{
    match v {
        JsonValue::Object(members) => {
            let k = string_of(key);
            object_get(members, &k)
        },
        _ => None,
    }
}

/// `v` indexed by each of `idx` from position `from` on.
fn index_into<'a>(
    v: &'a JsonValue,
    idx: &Vec<Option<usize>>,
    from: usize,
    Ghost(spec_idx): Ghost<Seq<nat>>,
) -> (r: Option<&'a JsonValue>)
    requires
        from <= idx.len(),
        spec_idx.len() == idx@.len(),
        forall|q: int|
            0 <= q < spec_idx.len() ==> match #[trigger] idx@[q] {
                Some(x) => x == spec_idx[q],
                None => spec_idx[q] > usize::MAX,
            },
    ensures
        match r {
            Some(w) => apply_indices(v@, spec_idx.subrange(from as int, spec_idx.len() as int))
                == Some(w@),
            None => apply_indices(v@, spec_idx.subrange(from as int, spec_idx.len() as int)) is None,
        },
    decreases idx.len() - from,
{
    let ghost rest = spec_idx.subrange(from as int, spec_idx.len() as int);
    if from == idx.len() {
        return Some(v);
    }
    assert(rest[0] == spec_idx[from as int]);
    assert(match idx@[from as int] {
        Some(x) => x == rest[0],
        None => rest[0] > usize::MAX,
    });
    let next: Option<&JsonValue> = match v {
        JsonValue::Array(items) => {
            proof {
                lemma_json_seq_view(items@);
            }
            match idx[from] {
                Some(x) => if x < items.len() {
                    let w = &items[x];
                    assert(json_seq_view(items@)[x as int] == items@[x as int]@);
                    assert(step_index(v@, rest[0]) == Some(w@));
                    Some(w)
                } else {
                    assert(step_index(v@, rest[0]) is None);
                    None
                },
                None => {
                    let n = items.len();
                    assert(rest[0] > n);
                    assert(step_index(v@, rest[0]) is None);
                    None
                },
            }
        },
        _ => {
            assert(step_index(v@, rest[0]) is None);
            None
        },
    };
    match next {
        Some(w) => {
            let r = index_into(w, idx, from + 1, Ghost(spec_idx));
            assert(rest.subrange(1, rest.len() as int) =~= spec_idx.subrange(
                from + 1,
                spec_idx.len() as int,
            ));
            r
        },
        None => None,
    }
}

/// `v` followed along one path piece.
fn follow_segment<'a>(v: &'a JsonValue, seg: &Vec<char>) -> (r: Option<&'a JsonValue>)
    ensures
        match r {
            Some(w) => step_segment(v@, seg@) == Some(w@),
            None => step_segment(v@, seg@) is None,
        },
{
    match segment_parts(seg) {
        Some((name, idx)) => {
            let ghost spec_idx = (parse_segment(seg@)->0).1;
            let base = if name.len() == 0 {
                Some(v)
            } else {
                member(v, &name)
            };
            match base {
                Some(b) => {
                    let r = index_into(b, &idx, 0, Ghost(spec_idx));
                    assert(spec_idx.subrange(0, spec_idx.len() as int) =~= spec_idx);
                    r
                },
                None => None,
            }
        },
        None => member(v, seg),
    }
}

/// The value that the field path `field` designates in `v`, if any.
pub fn find_field<'a>(v: &'a JsonValue, field: &Vec<char>) -> (r: Option<&'a JsonValue>)
    ensures
        match r {
            Some(w) => lookup_field(v@, field@) == Some(w@),
            None => lookup_field(v@, field@) is None,
        },
{
    let segs = split_on(field, '.');
    let ghost spec_segs = split_text(field@, '.');
    let mut cur: &JsonValue = v;
    let mut i: usize = 0;
    assert(spec_segs.subrange(0, spec_segs.len() as int) =~= spec_segs);
    while i < segs.len()
        invariant
            i <= segs.len(),
            spec_segs == split_text(field@, '.'),
            segs@.len() == spec_segs.len(),
            forall|j: int| 0 <= j < segs@.len() ==> #[trigger] segs@[j]@ == spec_segs[j],
            lookup_path(cur@, spec_segs.subrange(i as int, spec_segs.len() as int)) == lookup_path(
                v@,
                spec_segs,
            ),
        decreases segs.len() - i,
    {
        let ghost rest = spec_segs.subrange(i as int, spec_segs.len() as int);
        assert(rest[0] == segs@[i as int]@);
        assert(rest.subrange(1, rest.len() as int) =~= spec_segs.subrange(
            i + 1,
            spec_segs.len() as int,
        ));
        match follow_segment(cur, &segs[i]) {
            Some(w) => {
                cur = w;
            },
            None => {
                assert(lookup_path(cur@, rest) is None);
                assert(lookup_field(v@, field@) is None);
                return None;
            },
        }
        i = i + 1;
    }
    assert(spec_segs.subrange(segs.len() as int, spec_segs.len() as int) =~= Seq::<
        Seq<char>,
    >::empty());
    Some(cur)
}

} // verus!
