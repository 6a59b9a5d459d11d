use vstd::prelude::*;

verus! {

broadcast use vstd::std_specs::vec::group_vec_axioms, vstd::seq::group_seq_axioms;

/// How a JSON number was written: a non-negative integer, a negative
/// integer, or a number with a fraction or exponent.
#[derive(Clone, Copy, Debug, PartialEq, Eq, Structural)]
pub enum NumberRepr {
    PosInt(u64),
    NegInt(i64),
    Float,
}

/// A JSON number: how it was written, and the position of its value as a
/// double on the number line (`order`), an integer that orders numbers as
/// their double values are ordered.
#[derive(Clone, Copy, Debug, PartialEq, Eq, Structural)]
pub struct JsonNumber {
    pub repr: NumberRepr,
    pub order: i64,
}

/// A JSON document.
#[derive(Debug)]
pub enum JsonValue {
    Null,
    Bool(bool),
    Number(JsonNumber),
    String(String),
    Array(Vec<JsonValue>),
    Object(Vec<(String, JsonValue)>),
}

/// The mathematical model of a JSON document.
pub enum JsonView {
    Null,
    Bool(bool),
    Number(JsonNumber),
    Str(Seq<char>),
    Array(Seq<JsonView>),
    Object(Seq<(Seq<char>, JsonView)>),
}

pub open spec fn json_view(v: JsonValue) -> JsonView
    decreases v,
{
    match v {
        JsonValue::Null => JsonView::Null,
        JsonValue::Bool(b) => JsonView::Bool(b),
        JsonValue::Number(n) => JsonView::Number(n),
        JsonValue::String(s) => JsonView::Str(s@),
        JsonValue::Array(a) => JsonView::Array(json_seq_view(a@)),
        JsonValue::Object(o) => JsonView::Object(member_seq_view(o@)),
    }
}

pub open spec fn json_seq_view(s: Seq<JsonValue>) -> Seq<JsonView>
    decreases s,
{
    if s.len() == 0 {
        Seq::empty()
    } else {
        json_seq_view(s.drop_last()).push(json_view(s.last()))
    }
}

pub open spec fn member_seq_view(s: Seq<(String, JsonValue)>) -> Seq<(Seq<char>, JsonView)>
    decreases s,
{
    if s.len() == 0 {
        Seq::empty()
    } else {
        member_seq_view(s.drop_last()).push((s.last().0@, json_view(s.last().1)))
    }
}

impl View for JsonValue {
    type V = JsonView;

    open spec fn view(&self) -> JsonView {
        json_view(*self)
    }
}

pub proof fn lemma_json_seq_view(s: Seq<JsonValue>)
    ensures
        json_seq_view(s).len() == s.len(),
        forall|i: int| 0 <= i < s.len() ==> #[trigger] json_seq_view(s)[i] == json_view(s[i]),
    decreases s.len(),
{
    if s.len() > 0 {
        lemma_json_seq_view(s.drop_last());
    }
}

pub proof fn lemma_member_seq_view(s: Seq<(String, JsonValue)>)
    ensures
        member_seq_view(s).len() == s.len(),
        forall|i: int|
            0 <= i < s.len() ==> #[trigger] member_seq_view(s)[i] == (s[i].0@, json_view(s[i].1)),
    decreases s.len(),
{
    if s.len() > 0 {
        lemma_member_seq_view(s.drop_last());
    }
}

/// The value of the first member named `key`, if any.
pub open spec fn member_lookup(m: Seq<(Seq<char>, JsonView)>, key: Seq<char>) -> Option<JsonView>
    decreases m.len(),
{
    if m.len() == 0 {
        None
    } else if m[0].0 == key {
        Some(m[0].1)
    } else {
        member_lookup(m.drop_first(), key)
    }
}

impl JsonValue {
    /// A copy of this document, as deep as it goes.
    #[verifier::loop_isolation(false)]
    pub fn deep_copy(&self) -> (r: JsonValue)
        ensures
            r@ == self@,
        decreases self,
    {
        match self {
            JsonValue::Null => JsonValue::Null,
            JsonValue::Bool(b) => JsonValue::Bool(*b),
            JsonValue::Number(n) => JsonValue::Number(*n),
            JsonValue::String(s) => JsonValue::String(s.clone()),
            JsonValue::Array(a) => {
                let mut out: Vec<JsonValue> = Vec::new();
                let mut i: usize = 0;
                while i < a.len()
                    invariant
                        i <= a.len(),
                        out@.len() == i,
                        forall|j: int| 0 <= j < i ==> json_view(#[trigger] out@[j]) == json_view(a@[j]),
                    decreases a.len() - i,
                {
                    assert(decreases_to!(*self => a@[i as int]));
                    let item = a[i].deep_copy();
                    out.push(item);
                    i = i + 1;
                }
                proof {
                    lemma_json_seq_view(out@);
                    lemma_json_seq_view(a@);
                    assert(json_seq_view(out@) =~= json_seq_view(a@));
                }
                JsonValue::Array(out)
            },
            JsonValue::Object(o) => {
                let mut out: Vec<(String, JsonValue)> = Vec::new();
                let mut i: usize = 0;
                while i < o.len()
                    invariant
                        i <= o.len(),
                        out@.len() == i,
                        forall|j: int|
                            0 <= j < i ==> (#[trigger] out@[j]).0@ == o@[j].0@ && json_view(
                                out@[j].1,
                            ) == json_view(o@[j].1),
                    decreases o.len() - i,
                {
                    let key = o[i].0.clone();
                    assert(decreases_to!(*self => o@[i as int].1));
                    let value = o[i].1.deep_copy();
                    out.push((key, value));
                    i = i + 1;
                }
                proof {
                    lemma_member_seq_view(out@);
                    lemma_member_seq_view(o@);
                    assert(member_seq_view(out@) =~= member_seq_view(o@));
                }
                JsonValue::Object(out)
            },
        }
    }

    /// Whether two documents are equal: same kind, and equal contents
    /// (numbers compare by how they were written and by value).
    #[verifier::loop_isolation(false)]
    pub fn equals(&self, other: &JsonValue) -> (r: bool)
        ensures
            r == (self@ == other@),
        decreases self,
    {
        match (self, other) {
            (JsonValue::Null, JsonValue::Null) => true,
            (JsonValue::Bool(a), JsonValue::Bool(b)) => *a == *b,
            (JsonValue::Number(a), JsonValue::Number(b)) => *a == *b,
            (JsonValue::String(a), JsonValue::String(b)) => *a == *b,
            (JsonValue::Array(a), JsonValue::Array(b)) => {
                proof {
                    lemma_json_seq_view(a@);
                    lemma_json_seq_view(b@);
                }
                if a.len() != b.len() {
                    return false;
                }
                let mut i: usize = 0;
                while i < a.len()
                    invariant
                        i <= a.len(),
                        a.len() == b.len(),
                        forall|j: int| 0 <= j < i ==> json_view(#[trigger] a@[j]) == json_view(b@[j]),
                    decreases a.len() - i,
                {
                    assert(decreases_to!(*self => a@[i as int]));
                    if !a[i].equals(&b[i]) {
                        assert(json_seq_view(a@)[i as int] != json_seq_view(b@)[i as int]);
                        return false;
                    }
                    i = i + 1;
                }
                assert(json_seq_view(a@) =~= json_seq_view(b@));
                true
            },
            (JsonValue::Object(a), JsonValue::Object(b)) => {
                proof {
                    lemma_member_seq_view(a@);
                    lemma_member_seq_view(b@);
                }
                if a.len() != b.len() {
                    return false;
                }
                let mut i: usize = 0;
                while i < a.len()
                    invariant
                        i <= a.len(),
                        a.len() == b.len(),
                        forall|j: int|
                            0 <= j < i ==> (#[trigger] a@[j]).0@ == b@[j].0@ && json_view(a@[j].1)
                                == json_view(b@[j].1),
                    decreases a.len() - i,
                {
                    if !(a[i].0 == b[i].0) {
                        assert(member_seq_view(a@)[i as int] != member_seq_view(b@)[i as int]);
                        return false;
                    }
                    assert(decreases_to!(*self => a@[i as int].1));
                    if !a[i].1.equals(&b[i].1) {
                        assert(member_seq_view(a@)[i as int] != member_seq_view(b@)[i as int]);
                        return false;
                    }
                    i = i + 1;
                }
                assert(member_seq_view(a@) =~= member_seq_view(b@));
                true
            },
            _ => false,
        }
    }
}

impl Clone for JsonValue {
    fn clone(&self) -> (r: Self)
        ensures
            r@ == self@,
    {
        self.deep_copy()
    }
}

/// The value of the first member of `members` named `key`.
pub fn object_get<'a>(members: &'a Vec<(String, JsonValue)>, key: &String) -> (r: Option<
    &'a JsonValue,
>)
    ensures
        match r {
            Some(v) => member_lookup(member_seq_view(members@), key@) == Some(v@),
            None => member_lookup(member_seq_view(members@), key@) is None,
        },
{
    let ghost ms = member_seq_view(members@);
    proof {
        lemma_member_seq_view(members@);
    }
    let mut i: usize = 0;
    assert(ms.skip(0) =~= ms);
    while i < members.len()
        invariant
            i <= members.len(),
            ms == member_seq_view(members@),
            ms.len() == members@.len(),
            forall|j: int|
                0 <= j < members@.len() ==> #[trigger] ms[j] == (members@[j].0@, json_view(
                    members@[j].1,
                )),
            member_lookup(ms.skip(i as int), key@) == member_lookup(ms, key@),
        decreases members.len() - i,
    {
        assert(ms.skip(i as int)[0] == ms[i as int]);
        assert(ms.skip(i as int).drop_first() =~= ms.skip(i + 1));
        if members[i].0 == *key {
            return Some(&members[i].1);
        }
        i = i + 1;
    }
    None
}

} // verus!
