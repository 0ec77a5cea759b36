//! A generic structured value, as the server writes its replies.

use vstd::prelude::*;

verus! {

/// A JSON value. Numbers that are whole and fit `i64` are `Int`; any other
/// number is `Float`, kept as its decimal text. An object keeps its members
/// in order.
#[derive(Debug, PartialEq)]
pub enum Json {
    Null,
    Bool(bool),
    Int(i64),
    Float(String),
    Str(String),
    Array(Vec<Json>),
    Object(Vec<(String, Json)>),
}

/// Model of [`Json`].
pub enum JsonView {
    Null,
    Bool(bool),
    Int(int),
    Float(Seq<char>),
    Str(Seq<char>),
    Array(Seq<JsonView>),
    /// Member names and member values, position by position.
    Object(Seq<Seq<char>>, Seq<JsonView>),
}

impl View for Json {
    type V = JsonView;

    open spec fn view(&self) -> JsonView
        decreases self,
    {
        match self {
            Json::Null => JsonView::Null,
            Json::Bool(b) => JsonView::Bool(*b),
            Json::Int(i) => JsonView::Int(*i as int),
            Json::Float(f) => JsonView::Float(f@),
            Json::Str(s) => JsonView::Str(s@),
            Json::Array(a) => JsonView::Array(
                Seq::new(
                    a@.len(),
                    |i: int|
                        if 0 <= i < a@.len() {
                            a@[i].view()
                        } else {
                            JsonView::Null
                        },
                ),
            ),
            Json::Object(o) => JsonView::Object(
                Seq::new(o@.len(), |i: int| o@[i].0@),
                Seq::new(
                    o@.len(),
                    |i: int|
                        if 0 <= i < o@.len() {
                            o@[i].1.view()
                        } else {
                            JsonView::Null
                        },
                ),
            ),
        }
    }
}

pub open spec fn functor_key() -> Seq<char> {
    seq!['f', 'u', 'n', 'c', 't', 'o', 'r']
}

pub open spec fn args_key() -> Seq<char> {
    seq!['a', 'r', 'g', 's']
}

/// Index of the first member named `key`, or -1.
pub open spec fn key_index(fields: Seq<Seq<char>>, key: Seq<char>) -> int
    decreases fields.len(),
{
    if fields.len() == 0 {
        -1
    } else if fields[0] == key {
        0
    } else {
        let k = key_index(fields.drop_first(), key);
        if k < 0 {
            -1
        } else {
            k + 1
        }
    }
}

pub proof fn lemma_key_index_bounds(fields: Seq<Seq<char>>, key: Seq<char>)
    ensures
        -1 <= key_index(fields, key) < fields.len(),
        key_index(fields, key) >= 0 ==> fields[key_index(fields, key)] == key,
        key_index(fields, key) < 0 ==> forall|i: int| 0 <= i < fields.len() ==> fields[i] != key,
    decreases fields.len(),
{
    if fields.len() > 0 {
        lemma_key_index_bounds(fields.drop_first(), key);
        if fields[0] != key && key_index(fields.drop_first(), key) < 0 {
            assert forall|i: int| 0 <= i < fields.len() implies fields[i] != key by {
                if i > 0 {
                    assert(fields[i] == fields.drop_first()[i - 1]);
                }
            }
        }
    }
}

proof fn lemma_key_index_first(fields: Seq<Seq<char>>, key: Seq<char>, i: int)
    requires
        0 <= i < fields.len(),
        fields[i] == key,
        forall|j: int| 0 <= j < i ==> fields[j] != key,
    ensures
        key_index(fields, key) == i,
    decreases i,
{
    if i > 0 {
        assert forall|j: int| 0 <= j < i - 1 implies fields.drop_first()[j] != key by {
            assert(fields.drop_first()[j] == fields[j + 1]);
        }
        lemma_key_index_first(fields.drop_first(), key, i - 1);
    }
}

/// The member named `key` of an object, if it is one and has such a member.
pub open spec fn member(v: JsonView, key: Seq<char>) -> Option<JsonView> {
    match v {
        JsonView::Object(names, values) => {
            let k = key_index(names, key);
            if 0 <= k < values.len() {
                Some(values[k])
            } else {
                None
            }
        },
        _ => None,
    }
}

/// The text of a string value.
pub open spec fn text_of(v: Option<JsonView>) -> Option<Seq<char>> {
    match v {
        Some(JsonView::Str(s)) => Some(s),
        _ => None,
    }
}

/// The items of an array value.
pub open spec fn items_of(v: Option<JsonView>) -> Option<Seq<JsonView>> {
    match v {
        Some(JsonView::Array(a)) => Some(a),
        _ => None,
    }
}

impl Clone for Json {
    fn clone(&self) -> (r: Json)
        ensures
            r@ == self@,
    {
        self.deep_copy()
    }
}

impl Json {
    /// A copy of this value.
    fn deep_copy(&self) -> (r: Json)
        ensures
            r@ == self@,
        decreases self@,
    {
        match self {
            Json::Null => Json::Null,
            Json::Bool(b) => Json::Bool(*b),
            Json::Int(i) => Json::Int(*i),
            Json::Float(f) => Json::Float(f.clone()),
            Json::Str(s) => Json::Str(s.clone()),
            Json::Array(a) => {
                let mut out: Vec<Json> = Vec::new();
                let mut i: usize = 0;
                while i < a.len()
                    invariant
                        i <= a@.len(),
                        *self == Json::Array(*a),
                        out@.len() == i,
                        forall|j: int| 0 <= j < i ==> out@[j]@ == a@[j]@,
                    decreases a@.len() - i,
                {
                    proof {
                        assert(decreases_to!(self@ => self@->Array_0));
                        assert(decreases_to!(self@->Array_0 => self@->Array_0[i as int]));
                    }
                    out.push(a[i].deep_copy());
                    i = i + 1;
                }
                let r = Json::Array(out);
                assert(r@->Array_0 =~= self@->Array_0);
                r
            },
            Json::Object(o) => {
                let mut out: Vec<(String, Json)> = Vec::new();
                let mut i: usize = 0;
                while i < o.len()
                    invariant
                        i <= o@.len(),
                        *self == Json::Object(*o),
                        out@.len() == i,
                        forall|j: int| 0 <= j < i ==> out@[j].0@ == o@[j].0@ && out@[j].1@ == o@[j].1@,
                    decreases o@.len() - i,
                {
                    proof {
                        assert(decreases_to!(self@ => self@->Object_1));
                        assert(decreases_to!(self@->Object_1 => self@->Object_1[i as int]));
                    }
                    let (k, v) = &o[i];
                    out.push((k.clone(), v.deep_copy()));
                    i = i + 1;
                }
                let r = Json::Object(out);
                assert(r@->Object_0 =~= self@->Object_0);
                assert(r@->Object_1 =~= self@->Object_1);
                r
            },
        }
    }

    /// The member named `key`, if this is an object that has one.
    pub fn get(&self, key: &str) -> (r: Option<&Json>)
        ensures
            r is Some <==> member(self@, key@) is Some,
            r is Some ==> r->Some_0@ == member(self@, key@)->Some_0,
    {
        match self {
            Json::Object(o) => {
                proof {
                    lemma_key_index_bounds(self@->Object_0, key@);
                }
                let wanted = String::from_str(key);
                let mut i: usize = 0;
                while i < o.len()
                    invariant
                        i <= o@.len(),
                        wanted@ == key@,
                        self@ is Object,
                        self@->Object_0.len() == o@.len(),
                        self@->Object_1.len() == o@.len(),
                        forall|j: int| 0 <= j < o@.len() ==> #[trigger] self@->Object_0[j] == o@[j].0@,
                        forall|j: int| 0 <= j < o@.len() ==> #[trigger] self@->Object_1[j] == o@[j].1@,
                        forall|j: int| 0 <= j < i ==> o@[j].0@ != key@,
                    decreases o@.len() - i,
                {
                    if o[i].0 == wanted {
                        proof {
                            lemma_key_index_first(self@->Object_0, key@, i as int);
                        }
                        return Some(&o[i].1);
                    }
                    i = i + 1;
                }
                None
            },
            _ => None,
        }
    }
}

} // verus!
