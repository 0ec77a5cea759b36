//! Prolog terms, their mapping to and from generic values, and query results.

use vstd::prelude::*;
use vstd::string::*;
use crate::error::{invalid_state, ErrorView, PrologError};
use crate::json::{
    args_key, functor_key, items_of, key_index, lemma_key_index_bounds, member, text_of, Json, JsonView,
};

pub use crate::printer::{prolog_term_to_string, quote_prolog_identifier};

verus! {

/// A decoded Prolog term.
#[derive(Debug, PartialEq)]
pub enum PrologTerm {
    Atom(String),
    Variable(String),
    Integer(i64),
    /// A number with a fraction or an exponent, as its decimal text.
    Float(String),
    Bool(bool),
    List(Vec<PrologTerm>),
    Compound(PrologCompound),
    /// Any value of no other shape, kept as it came.
    Other(Json),
}

/// A compound term: functor and arguments.
#[derive(Debug, PartialEq)]
pub struct PrologCompound {
    pub functor: String,
    pub args: Vec<PrologTerm>,
}

/// Model of [`PrologTerm`].
pub enum TermView {
    Atom(Seq<char>),
    Variable(Seq<char>),
    Integer(int),
    Float(Seq<char>),
    Bool(bool),
    List(Seq<TermView>),
    Compound(Seq<char>, Seq<TermView>),
    Other(JsonView),
}

impl View for PrologTerm {
    type V = TermView;

    open spec fn view(&self) -> TermView
        decreases self,
    {
        match self {
            PrologTerm::Atom(s) => TermView::Atom(s@),
            PrologTerm::Variable(s) => TermView::Variable(s@),
            PrologTerm::Integer(i) => TermView::Integer(*i as int),
            PrologTerm::Float(f) => TermView::Float(f@),
            PrologTerm::Bool(b) => TermView::Bool(*b),
            PrologTerm::List(items) => TermView::List(
                Seq::new(
                    items@.len(),
                    |i: int|
                        if 0 <= i < items@.len() {
                            items@[i].view()
                        } else {
                            TermView::Bool(false)
                        },
                ),
            ),
            PrologTerm::Compound(c) => TermView::Compound(
                c.functor@,
                Seq::new(
                    c.args@.len(),
                    |i: int|
                        if 0 <= i < c.args@.len() {
                            c.args@[i].view()
                        } else {
                            TermView::Bool(false)
                        },
                ),
            ),
            PrologTerm::Other(v) => TermView::Other(v@),
        }
    }
}

impl Clone for PrologTerm {
    fn clone(&self) -> (r: PrologTerm)
        ensures
            r@ == self@,
    {
        copy_term(self)
    }
}

impl Clone for PrologCompound {
    fn clone(&self) -> (r: PrologCompound)
        ensures
            r.functor@ == self.functor@,
            r.args@.len() == self.args@.len(),
            forall|i: int| 0 <= i < self.args@.len() ==> #[trigger] r.args@[i]@ == self.args@[i]@,
    {
        let ghost tv = TermView::Compound(self.functor@, Seq::new(self.args@.len(), |i: int| self.args@[i]@));
        assert forall|i: int| 0 <= i < self.args@.len() implies decreases_to!(tv => #[trigger] self.args@[i]@) by {
            assert(tv->Compound_1[i] == self.args@[i]@);
            assert(decreases_to!(tv => tv->Compound_1));
            assert(decreases_to!(tv->Compound_1 => tv->Compound_1[i]));
        }
        PrologCompound { functor: self.functor.clone(), args: copy_terms(&self.args, Ghost(tv)) }
    }
}

fn copy_term(term: &PrologTerm) -> (r: PrologTerm)
    ensures
        r@ == term@,
    decreases term@,
{
    match term {
        PrologTerm::Atom(s) => PrologTerm::Atom(s.clone()),
        PrologTerm::Variable(s) => PrologTerm::Variable(s.clone()),
        PrologTerm::Integer(i) => PrologTerm::Integer(*i),
        PrologTerm::Float(f) => PrologTerm::Float(f.clone()),
        PrologTerm::Bool(b) => PrologTerm::Bool(*b),
        PrologTerm::List(items) => {
            let ghost tv = term@;
            assert forall|i: int| 0 <= i < items@.len() implies decreases_to!(tv => #[trigger] items@[i]@) by {
                assert(tv->List_0[i] == items@[i]@);
                assert(decreases_to!(tv => tv->List_0));
                assert(decreases_to!(tv->List_0 => tv->List_0[i]));
            }
            let copies = copy_terms(items, Ghost(tv));
            let ghost gc = copies@;
            let r = PrologTerm::List(copies);
            assert forall|j: int| 0 <= j < items@.len() implies r@->List_0[j] == tv->List_0[j] by {
                assert(tv->List_0[j] == items@[j]@);
                assert(gc[j]@ == items@[j]@);
                assert(r@->List_0[j] == gc[j]@);
            }
            assert(r@->List_0 =~= tv->List_0);
            r
        },
        PrologTerm::Compound(c) => {
            let ghost tv = term@;
            assert forall|i: int| 0 <= i < c.args@.len() implies decreases_to!(tv => #[trigger] c.args@[i]@) by {
                assert(tv->Compound_1[i] == c.args@[i]@);
                assert(decreases_to!(tv => tv->Compound_1));
                assert(decreases_to!(tv->Compound_1 => tv->Compound_1[i]));
            }
            let copies = copy_terms(&c.args, Ghost(tv));
            let ghost gc = copies@;
            let r = PrologTerm::Compound(PrologCompound { functor: c.functor.clone(), args: copies });
            assert forall|j: int| 0 <= j < c.args@.len() implies r@->Compound_1[j] == tv->Compound_1[j] by {
                assert(tv->Compound_1[j] == c.args@[j]@);
                assert(gc[j]@ == c.args@[j]@);
                assert(r@->Compound_1[j] == gc[j]@);
            }
            assert(r@->Compound_1 =~= tv->Compound_1);
            r
        },
        PrologTerm::Other(v) => PrologTerm::Other(v.clone()),
    }
}

fn copy_terms(items: &Vec<PrologTerm>, Ghost(whole): Ghost<TermView>) -> (r: Vec<PrologTerm>)
    requires
        forall|i: int| 0 <= i < items@.len() ==> decreases_to!(whole => #[trigger] items@[i]@),
    ensures
        r@.len() == items@.len(),
        forall|i: int| 0 <= i < items@.len() ==> #[trigger] r@[i]@ == items@[i]@,
    decreases whole, 0int,
{
    let mut out: Vec<PrologTerm> = Vec::new();
    let mut i: usize = 0;
    while i < items.len()
        invariant
            i <= items@.len(),
            out@.len() == i,
            forall|j: int| 0 <= j < items@.len() ==> decreases_to!(whole => #[trigger] items@[j]@),
            forall|j: int| 0 <= j < i ==> #[trigger] out@[j]@ == items@[j]@,
        decreases items@.len() - i,
    {
        out.push(copy_term(&items[i]));
        i = i + 1;
    }
    out
}

/// The generic value that a term is written as.
pub open spec fn value_of_term(t: TermView) -> JsonView
    decreases t,
{
    match t {
        TermView::Atom(s) => JsonView::Str(s),
        TermView::Variable(s) => JsonView::Str(s),
        TermView::Integer(i) => JsonView::Int(i),
        TermView::Float(f) => JsonView::Float(f),
        TermView::Bool(b) => JsonView::Bool(b),
        TermView::List(items) => JsonView::Array(
            Seq::new(
                items.len(),
                |i: int|
                    if 0 <= i < items.len() {
                        value_of_term(items[i])
                    } else {
                        JsonView::Null
                    },
            ),
        ),
        TermView::Compound(f, args) => JsonView::Object(
            seq![functor_key(), args_key()],
            seq![
                JsonView::Str(f),
                JsonView::Array(
                    Seq::new(
                        args.len(),
                        |i: int|
                            if 0 <= i < args.len() {
                                value_of_term(args[i])
                            } else {
                                JsonView::Null
                            },
                    ),
                ),
            ],
        ),
        TermView::Other(v) => v,
    }
}

/// The term that a generic value decodes to: a string is an atom, a whole
/// number an integer, any other number a float, an array a list, an object
/// with a text `functor` and an array `args` a compound; anything else is
/// kept as it is.
pub open spec fn term_of_value(v: JsonView) -> TermView
    decreases v,
{
    match v {
        JsonView::Null => TermView::Other(v),
        JsonView::Bool(b) => TermView::Bool(b),
        JsonView::Int(i) => TermView::Integer(i),
        JsonView::Float(f) => TermView::Float(f),
        JsonView::Str(s) => TermView::Atom(s),
        JsonView::Array(items) => TermView::List(
            Seq::new(
                items.len(),
                |i: int|
                    if 0 <= i < items.len() {
                        term_of_value(items[i])
                    } else {
                        TermView::Bool(false)
                    },
            ),
        ),
        JsonView::Object(names, values) => {
            let fi = key_index(names, functor_key());
            let ai = key_index(names, args_key());
            if 0 <= fi < values.len() && 0 <= ai < values.len() && values[fi] is Str
                && values[ai] is Array {
                let args = values[ai]->Array_0;
                TermView::Compound(
                    values[fi]->Str_0,
                    Seq::new(
                        args.len(),
                        |i: int|
                            if 0 <= i < args.len() {
                                term_of_value(args[i])
                            } else {
                                TermView::Bool(false)
                            },
                    ),
                )
            } else {
                TermView::Other(v)
            }
        },
    }
}

/// A term that holds no variable and no `Other` value, at any depth.
pub open spec fn is_plain_term(t: TermView) -> bool
    decreases t,
{
    match t {
        TermView::Variable(_) => false,
        TermView::Other(_) => false,
        TermView::List(items) => all_plain(items),
        TermView::Compound(_, args) => all_plain(args),
        _ => true,
    }
}

pub open spec fn all_plain(s: Seq<TermView>) -> bool
    decreases s,
{
    if s.len() == 0 {
        true
    } else {
        is_plain_term(s.last()) && all_plain(s.drop_last())
    }
}

proof fn lemma_all_plain(s: Seq<TermView>, i: int)
    requires
        all_plain(s),
        0 <= i < s.len(),
    ensures
        is_plain_term(s[i]),
    decreases s.len(),
{
    if i < s.len() - 1 {
        lemma_all_plain(s.drop_last(), i);
    }
}

/// Writing a term as a generic value and decoding that value gives the term
/// back, for every term without variables and without `Other` values.
pub proof fn lemma_term_value_round_trip(t: TermView)
    requires
        is_plain_term(t),
    ensures
        term_of_value(value_of_term(t)) == t,
    decreases t,
{
    match t {
        TermView::List(items) => {
            let back = term_of_value(value_of_term(t));
            assert forall|i: int| 0 <= i < items.len() implies back->List_0[i] == items[i] by {
                lemma_all_plain(items, i);
                lemma_term_value_round_trip(items[i]);
            }
            assert(back->List_0 =~= items);
        },
        TermView::Compound(f, args) => {
            let v = value_of_term(t);
            let names = seq![functor_key(), args_key()];
            assert(names[0] == functor_key());
            assert(key_index(names, functor_key()) == 0);
            assert(names[1] == args_key());
            assert(names[0] != args_key()) by {
                assert(names[0].len() != args_key().len());
            }
            assert(names.drop_first() =~= seq![args_key()]);
            assert(key_index(seq![args_key()], args_key()) == 0);
            assert(key_index(names, args_key()) == 1);
            let back = term_of_value(v);
            assert forall|i: int| 0 <= i < args.len() implies back->Compound_1[i] == args[i] by {
                lemma_all_plain(args, i);
                lemma_term_value_round_trip(args[i]);
            }
            assert(back->Compound_1 =~= args);
        },
        _ => {},
    }
}

/// Writes `term` as a generic value: atoms and variables as strings, lists as
/// arrays, compounds as objects with members `functor` and `args`.
pub fn term_to_value(term: &PrologTerm) -> (r: Json)
    ensures
        r@ == value_of_term(term@),
    decreases term@,
{
    match term {
        PrologTerm::Atom(s) => Json::Str(s.clone()),
        PrologTerm::Variable(s) => Json::Str(s.clone()),
        PrologTerm::Integer(i) => Json::Int(*i),
        PrologTerm::Float(f) => Json::Float(f.clone()),
        PrologTerm::Bool(b) => Json::Bool(*b),
        PrologTerm::List(items) => {
            assert forall|i: int| 0 <= i < items@.len() implies decreases_to!(term@ => #[trigger] items@[i]@) by {
                assert(term@->List_0[i] == items@[i]@);
                assert(decreases_to!(term@ => term@->List_0));
                assert(decreases_to!(term@->List_0 => term@->List_0[i]));
            }
            let vals = terms_to_values(items, Ghost(term@));
            let ghost gv = vals@;
            let r = Json::Array(vals);
            assert forall|j: int| 0 <= j < items@.len() implies r@->Array_0[j] == value_of_term(term@)->Array_0[j] by {
                assert(term@->List_0[j] == items@[j]@);
                assert(gv[j]@ == value_of_term(items@[j]@));
                assert(r@->Array_0[j] == gv[j]@);
            }
            assert(r@->Array_0 =~= value_of_term(term@)->Array_0);
            r
        },
        PrologTerm::Compound(c) => {
            assert forall|i: int| 0 <= i < c.args@.len() implies decreases_to!(term@ => #[trigger] c.args@[i]@) by {
                assert(term@->Compound_1[i] == c.args@[i]@);
                assert(decreases_to!(term@ => term@->Compound_1));
                assert(decreases_to!(term@->Compound_1 => term@->Compound_1[i]));
            }
            let vals = terms_to_values(&c.args, Ghost(term@));
            let ghost gv = vals@;
            let args = Json::Array(vals);
            let mut names: Vec<(String, Json)> = Vec::new();
            names.push((String::from_str("functor"), Json::Str(c.functor.clone())));
            names.push((String::from_str("args"), args));
            let ghost gn = names@;
            let r = Json::Object(names);
            proof {
                reveal_strlit("functor");
                reveal_strlit("args");
                assert(gn[0].0@ =~= functor_key());
                assert(gn[1].0@ =~= args_key());
                assert(r@->Object_0[0] == gn[0].0@);
                assert(r@->Object_0[1] == gn[1].0@);
                assert(r@->Object_1[0] == gn[0].1@);
                assert(r@->Object_1[1] == gn[1].1@);
                assert forall|j: int| 0 <= j < c.args@.len() implies args@->Array_0[j] == value_of_term(term@)->Object_1[1]->Array_0[j] by {
                    assert(term@->Compound_1[j] == c.args@[j]@);
                    assert(gv[j]@ == value_of_term(c.args@[j]@));
                    assert(args@->Array_0[j] == gv[j]@);
                }
                assert(args@->Array_0 =~= value_of_term(term@)->Object_1[1]->Array_0);
                assert(r@->Object_0 =~= value_of_term(term@)->Object_0);
                assert(r@->Object_1 =~= value_of_term(term@)->Object_1);
            }
            r
        },
        PrologTerm::Other(v) => v.clone(),
    }
}

/// The values of a sequence of terms that are parts of `whole`.
fn terms_to_values(items: &Vec<PrologTerm>, Ghost(whole): Ghost<TermView>) -> (r: Vec<Json>)
    requires
        forall|i: int| 0 <= i < items@.len() ==> decreases_to!(whole => #[trigger] items@[i]@),
    ensures
        r@.len() == items@.len(),
        forall|i: int| 0 <= i < items@.len() ==> #[trigger] r@[i]@ == value_of_term(items@[i]@),
    decreases whole, 0int,
{
    let mut out: Vec<Json> = Vec::new();
    let mut i: usize = 0;
    while i < items.len()
        invariant
            i <= items@.len(),
            out@.len() == i,
            forall|j: int| 0 <= j < items@.len() ==> decreases_to!(whole => #[trigger] items@[j]@),
            forall|j: int| 0 <= j < i ==> #[trigger] out@[j]@ == value_of_term(items@[j]@),
        decreases items@.len() - i,
    {
        out.push(term_to_value(&items[i]));
        i = i + 1;
    }
    out
}

/// Decodes a generic value into a term, as [`term_of_value`] says.
pub fn value_to_term(v: &Json) -> (r: PrologTerm)
    ensures
        r@ == term_of_value(v@),
    decreases v@,
{
    match v {
        Json::Null => PrologTerm::Other(Json::Null),
        Json::Bool(b) => PrologTerm::Bool(*b),
        Json::Int(i) => PrologTerm::Integer(*i),
        Json::Float(f) => PrologTerm::Float(f.clone()),
        Json::Str(s) => PrologTerm::Atom(s.clone()),
        Json::Array(items) => {
            assert forall|i: int| 0 <= i < items@.len() implies decreases_to!(v@ => #[trigger] items@[i]@) by {
                assert(v@->Array_0[i] == items@[i]@);
                assert(decreases_to!(v@ => v@->Array_0));
                assert(decreases_to!(v@->Array_0 => v@->Array_0[i]));
            }
            let terms = values_to_terms(items, Ghost(v@));
            let ghost gt = terms@;
            let r = PrologTerm::List(terms);
            assert forall|j: int| 0 <= j < items@.len() implies r@->List_0[j] == term_of_value(v@)->List_0[j] by {
                assert(v@->Array_0[j] == items@[j]@);
                assert(gt[j]@ == term_of_value(items@[j]@));
                assert(r@->List_0[j] == gt[j]@);
            }
            assert(r@->List_0 =~= term_of_value(v@)->List_0);
            r
        },
        Json::Object(_) => {
            proof {
                reveal_strlit("functor");
                reveal_strlit("args");
                assert("functor"@ =~= functor_key());
                assert("args"@ =~= args_key());
                lemma_key_index_bounds(v@->Object_0, functor_key());
                lemma_key_index_bounds(v@->Object_0, args_key());
            }
            let f = v.get("functor");
            let a = v.get("args");
            match (f, a) {
                (Some(Json::Str(name)), Some(Json::Array(items))) => {
                    let ghost names = v@->Object_0;
                    let ghost values = v@->Object_1;
                    let ghost ai = key_index(names, args_key());
                    assert(values[ai] == Json::Array(*items)@);
                    assert forall|i: int| 0 <= i < items@.len() implies decreases_to!(v@ => #[trigger] items@[i]@) by {
                        assert(values[ai]->Array_0[i] == items@[i]@);
                        assert(decreases_to!(v@ => values));
                        assert(decreases_to!(values => values[ai]));
                        assert(decreases_to!(values[ai] => values[ai]->Array_0));
                        assert(decreases_to!(values[ai]->Array_0 => values[ai]->Array_0[i]));
                    }
                    let terms = values_to_terms(items, Ghost(v@));
                    let ghost gt = terms@;
                    let r = PrologTerm::Compound(PrologCompound { functor: name.clone(), args: terms });
                    assert forall|j: int| 0 <= j < items@.len() implies r@->Compound_1[j] == term_of_value(v@)->Compound_1[j] by {
                        assert(values[ai]->Array_0[j] == items@[j]@);
                        assert(gt[j]@ == term_of_value(items@[j]@));
                        assert(r@->Compound_1[j] == gt[j]@);
                    }
                    assert(r@->Compound_1 =~= term_of_value(v@)->Compound_1);
                    r
                },
                _ => PrologTerm::Other(v.clone()),
            }
        },
    }
}

/// The terms of a sequence of values that are parts of `whole`.
fn values_to_terms(items: &Vec<Json>, Ghost(whole): Ghost<JsonView>) -> (r: Vec<PrologTerm>)
    requires
        forall|i: int| 0 <= i < items@.len() ==> decreases_to!(whole => #[trigger] items@[i]@),
    ensures
        r@.len() == items@.len(),
        forall|i: int| 0 <= i < items@.len() ==> #[trigger] r@[i]@ == term_of_value(items@[i]@),
    decreases whole, 0int,
{
    let mut out: Vec<PrologTerm> = Vec::new();
    let mut i: usize = 0;
    while i < items.len()
        invariant
            i <= items@.len(),
            out@.len() == i,
            forall|j: int| 0 <= j < items@.len() ==> decreases_to!(whole => #[trigger] items@[j]@),
            forall|j: int| 0 <= j < i ==> #[trigger] out@[j]@ == term_of_value(items@[j]@),
        decreases items@.len() - i,
    {
        out.push(value_to_term(&items[i]));
        i = i + 1;
    }
    out
}

/// One variable of a solution and the term it is bound to.
#[derive(Debug)]
pub struct Binding {
    pub name: String,
    pub value: PrologTerm,
}

/// The map that a sequence of bindings makes, a later binding of a name
/// replacing an earlier one.
pub open spec fn bindings_map(b: Seq<Binding>) -> Map<Seq<char>, TermView>
    decreases b.len(),
{
    if b.len() == 0 {
        Map::empty()
    } else {
        bindings_map(b.drop_last()).insert(b.last().name@, b.last().value@)
    }
}

pub open spec fn names_unique(b: Seq<Binding>) -> bool {
    forall|i: int, j: int| 0 <= i < j < b.len() ==> b[i].name@ != b[j].name@
}

proof fn lemma_bindings_map(b: Seq<Binding>)
    requires
        names_unique(b),
    ensures
        forall|j: int| 0 <= j < b.len() ==> #[trigger] bindings_map(b).contains_key(b[j].name@)
            && bindings_map(b)[b[j].name@] == b[j].value@,
        forall|k: Seq<char>| #[trigger] bindings_map(b).contains_key(k) ==> exists|j: int|
            0 <= j < b.len() && b[j].name@ == k,
        bindings_map(b).dom().finite(),
        bindings_map(b).dom().len() == b.len(),
    decreases b.len(),
{
    if b.len() > 0 {
        let d = b.drop_last();
        assert(names_unique(d));
        lemma_bindings_map(d);
        let last = b.last();
        assert(!bindings_map(d).contains_key(last.name@)) by {
            if bindings_map(d).contains_key(last.name@) {
                let j = choose|j: int| 0 <= j < d.len() && d[j].name@ == last.name@;
                assert(b[j].name@ == b[b.len() - 1].name@);
            }
        }
        assert forall|j: int| 0 <= j < b.len() implies #[trigger] bindings_map(b).contains_key(b[j].name@)
            && bindings_map(b)[b[j].name@] == b[j].value@ by {
            if j < b.len() - 1 {
                assert(b[j] == d[j]);
            }
        }
        assert forall|k: Seq<char>| #[trigger] bindings_map(b).contains_key(k) implies exists|j: int|
            0 <= j < b.len() && b[j].name@ == k by {
            if k != last.name@ {
                let j = choose|j: int| 0 <= j < d.len() && d[j].name@ == k;
                assert(b[j] == d[j]);
            } else {
                assert(b[b.len() - 1].name@ == k);
            }
        }
    }
}

/// One solution of a query: each variable bound by it, with its term.
#[derive(Debug)]
pub struct Solution {
    bindings: Vec<Binding>,
}

impl View for Solution {
    type V = Map<Seq<char>, TermView>;

    closed spec fn view(&self) -> Map<Seq<char>, TermView> {
        bindings_map(self.bindings@)
    }
}

impl Solution {
    /// No variable is bound twice.
    pub closed spec fn wf(&self) -> bool {
        names_unique(self.bindings@)
    }

    /// The solution that binds nothing.
    pub fn new() -> (r: Solution)
        ensures
            r.wf(),
            r@ == Map::<Seq<char>, TermView>::empty(),
    {
        Solution { bindings: Vec::new() }
    }

    /// Binds `name` to `value`, replacing an earlier binding of `name`.
    pub fn insert(&mut self, name: String, value: PrologTerm)
        requires
            old(self).wf(),
        ensures
            final(self).wf(),
            final(self)@ == old(self)@.insert(name@, value@),
    {
        let mut i: usize = 0;
        while i < self.bindings.len()
            invariant
                i <= self.bindings@.len(),
                self.wf(),
                self == old(self),
                forall|j: int| 0 <= j < i ==> self.bindings@[j].name@ != name@,
            ensures
                i <= self.bindings@.len(),
                self.wf(),
                self == old(self),
                forall|j: int| 0 <= j < i ==> self.bindings@[j].name@ != name@,
                i < self.bindings@.len() ==> self.bindings@[i as int].name@ == name@,
            decreases self.bindings@.len() - i,
        {
            if self.bindings[i].name == name {
                break;
            }
            i = i + 1;
        }
        let ghost before = self.bindings@;
        proof {
            lemma_bindings_map(before);
        }
        if i < self.bindings.len() {
            self.bindings.remove(i);
        }
        let ghost kept = self.bindings@;
        assert(names_unique(kept));
        assert forall|j: int| 0 <= j < kept.len() implies kept[j].name@ != name@ by {
            if i < before.len() && j >= i {
                assert(kept[j] == before[j + 1]);
            } else {
                assert(kept[j] == before[j]);
            }
        }
        self.bindings.push(Binding { name, value });
        proof {
            let after = self.bindings@;
            assert(after.drop_last() =~= kept);
            assert(names_unique(after));
            lemma_bindings_map(kept);
            assert(bindings_map(after) =~= bindings_map(before).insert(name@, value@)) by {
                assert forall|k: Seq<char>| #[trigger] bindings_map(before).insert(name@, value@).contains_key(k)
                    implies bindings_map(kept).insert(name@, value@).contains_key(k)
                    && bindings_map(kept).insert(name@, value@)[k] == bindings_map(before).insert(name@, value@)[k] by {
                    if k != name@ {
                        let j = choose|j: int| 0 <= j < before.len() && before[j].name@ == k;
                        if i < before.len() && j > i {
                            assert(kept[j - 1] == before[j]);
                        } else {
                            assert(j != i);
                            assert(kept[j] == before[j]);
                        }
                    }
                }
                assert forall|k: Seq<char>| #[trigger] bindings_map(kept).insert(name@, value@).contains_key(k)
                    implies bindings_map(before).insert(name@, value@).contains_key(k) by {
                    if k != name@ {
                        let j = choose|j: int| 0 <= j < kept.len() && kept[j].name@ == k;
                        if i < before.len() && j >= i {
                            assert(kept[j] == before[j + 1]);
                        } else {
                            assert(kept[j] == before[j]);
                        }
                    }
                }
            }
        }
    }

    /// The term bound to `name`, if any.
    pub fn get(&self, name: &str) -> (r: Option<&PrologTerm>)
        requires
            self.wf(),
        ensures
            r is Some <==> self@.contains_key(name@),
            r is Some ==> r->Some_0@ == self@[name@],
    {
        proof {
            lemma_bindings_map(self.bindings@);
        }
        let wanted = String::from_str(name);
        let mut i: usize = 0;
        while i < self.bindings.len()
            invariant
                i <= self.bindings@.len(),
                self.wf(),
                wanted@ == name@,
                forall|j: int| 0 <= j < i ==> self.bindings@[j].name@ != name@,
            decreases self.bindings@.len() - i,
        {
            if self.bindings[i].name == wanted {
                proof {
                    lemma_bindings_map(self.bindings@);
                    assert(self@.contains_key(self.bindings@[i as int].name@));
                }
                return Some(&self.bindings[i].value);
            }
            i = i + 1;
        }
        proof {
            lemma_bindings_map(self.bindings@);
        }
        None
    }

    /// Whether `name` is bound.
    pub fn contains_key(&self, name: &str) -> (r: bool)
        requires
            self.wf(),
        ensures
            r == self@.contains_key(name@),
    {
        self.get(name).is_some()
    }

    /// The number of bound variables.
    pub fn len(&self) -> (r: usize)
        requires
            self.wf(),
        ensures
            r == self@.dom().len(),
    {
        proof {
            lemma_bindings_map(self.bindings@);
        }
        self.bindings.len()
    }

    /// Whether nothing is bound.
    pub fn is_empty(&self) -> (r: bool)
        requires
            self.wf(),
        ensures
            r == (self@.dom().len() == 0),
    {
        self.len() == 0
    }
}

/// Whether the text of `s` is `lit`.
pub fn text_is(s: &String, lit: &str) -> (r: bool)
    ensures
        r == (s@ == lit@),
{
    *s == String::from_str(lit)
}

/// The outcome of a query.
#[derive(Debug)]
pub enum QueryResult {
    /// Success or failure with no bindings to report.
    Success(bool),
    /// The solutions, in the order the server found them.
    Solutions(Vec<Solution>),
}

/// Model of [`QueryResult`].
pub enum QueryResultView {
    Success(bool),
    Solutions(Seq<Map<Seq<char>, TermView>>),
}

impl View for QueryResult {
    type V = QueryResultView;

    open spec fn view(&self) -> QueryResultView {
        match self {
            QueryResult::Success(b) => QueryResultView::Success(*b),
            QueryResult::Solutions(s) => QueryResultView::Solutions(
                Seq::new(s@.len(), |i: int| s@[i]@),
            ),
        }
    }
}

impl QueryResult {
    /// Every solution binds each variable once.
    pub open spec fn wf(&self) -> bool {
        match self {
            QueryResult::Success(_) => true,
            QueryResult::Solutions(s) => forall|i: int| 0 <= i < s@.len() ==> #[trigger] s@[i].wf(),
        }
    }
}

pub open spec fn equals_key() -> Seq<char> {
    seq!['=']
}

/// The variable and term of one binding `=(Name, Value)`, if `b` is one.
pub open spec fn binding_of(b: JsonView) -> Option<(Seq<char>, TermView)> {
    match (text_of(member(b, functor_key())), items_of(member(b, args_key()))) {
        (Some(f), Some(args)) => if f == equals_key() && args.len() == 2 && args[0] is Str {
            Some((args[0]->Str_0, term_of_value(args[1])))
        } else {
            None
        },
        _ => None,
    }
}

/// The solution that a list of bindings makes, if every element is one.
pub open spec fn solution_of(bs: Seq<JsonView>) -> Option<Map<Seq<char>, TermView>>
    decreases bs.len(),
{
    if bs.len() == 0 {
        Some(Map::empty())
    } else {
        match (solution_of(bs.drop_last()), binding_of(bs.last())) {
            (Some(m), Some(b)) => Some(m.insert(b.0, b.1)),
            _ => None,
        }
    }
}

/// Whether every element is a list of bindings.
pub open spec fn solutions_valid(sols: Seq<JsonView>) -> bool {
    forall|i: int| 0 <= i < sols.len() ==> #[trigger] items_of(Some(sols[i])) is Some
        && solution_of(items_of(Some(sols[i]))->Some_0) is Some
}

/// The solutions that a list of lists of bindings denotes.
pub open spec fn solutions_of(sols: Seq<JsonView>) -> Seq<Map<Seq<char>, TermView>> {
    Seq::new(sols.len(), |i: int| solution_of(items_of(Some(sols[i]))->Some_0)->Some_0)
}

proof fn lemma_solution_prefix(bs: Seq<JsonView>, k: int)
    requires
        0 <= k <= bs.len(),
        solution_of(bs.subrange(0, k)) is None,
    ensures
        solution_of(bs) is None,
    decreases bs.len() - k,
{
    if k < bs.len() {
        let p = bs.subrange(0, k + 1);
        assert(p.drop_last() =~= bs.subrange(0, k));
        lemma_solution_prefix(bs, k + 1);
    } else {
        assert(bs.subrange(0, k) =~= bs);
    }
}

/// Decodes one list of bindings.
fn parse_solution(bs: &Vec<Json>) -> (r: Option<Solution>)
    ensures
        r is Some <==> solution_of(bs@.map_values(|j: Json| j@)) is Some,
        r is Some ==> r->Some_0.wf() && r->Some_0@ == solution_of(bs@.map_values(|j: Json| j@))->Some_0,
{
    let ghost views = bs@.map_values(|j: Json| j@);
    let mut sol = Solution::new();
    let mut i: usize = 0;
    proof {
        reveal_strlit("=");
        reveal_strlit("functor");
        reveal_strlit("args");
        assert("="@ =~= equals_key());
        assert("functor"@ =~= functor_key());
        assert("args"@ =~= args_key());
    }
    while i < bs.len()
        invariant
            i <= bs@.len(),
            views == bs@.map_values(|j: Json| j@),
            "="@ == equals_key(),
            "functor"@ == functor_key(),
            "args"@ == args_key(),
            sol.wf(),
            solution_of(views.subrange(0, i as int)) == Some(sol@),
        decreases bs@.len() - i,
    {
        let b = &bs[i];
        assert(views.subrange(0, i + 1).drop_last() =~= views.subrange(0, i as int));
        assert(views.subrange(0, i + 1).last() == b@);
        let f = b.get("functor");
        let a = b.get("args");
        match (f, a) {
            (Some(Json::Str(fname)), Some(Json::Array(args))) => {
                if text_is(fname, "=") && args.len() == 2 {
                    let ghost av = Json::Array(*args)@;
                    assert(av->Array_0[0] == args@[0]@);
                    assert(av->Array_0[1] == args@[1]@);
                    match &args[0] {
                        Json::Str(var) => {
                            let value = value_to_term(&args[1]);
                            sol.insert(var.clone(), value);
                        },
                        _ => {
                            proof {
                                lemma_solution_prefix(views, i + 1);
                            }
                            return None;
                        },
                    }
                } else {
                    proof {
                        lemma_solution_prefix(views, i + 1);
                    }
                    return None;
                }
            },
            _ => {
                proof {
                    lemma_solution_prefix(views, i + 1);
                }
                return None;
            },
        }
        i = i + 1;
    }
    assert(views.subrange(0, i as int) =~= views);
    Some(sol)
}

impl QueryResult {
    /// Decodes the solutions of a `true([...])` reply: each element must be a
    /// list of `=(Name, Value)` bindings.
    pub fn parse_solutions(solutions: &[Json]) -> (r: Result<QueryResult, PrologError>)
        ensures
            r is Ok <==> solutions_valid(solutions@.map_values(|j: Json| j@)),
            r is Ok ==> r->Ok_0.wf() && r->Ok_0@ == QueryResultView::Solutions(
                solutions_of(solutions@.map_values(|j: Json| j@)),
            ),
            r is Err ==> r->Err_0@ == ErrorView::InvalidState,
    {
        let ghost views = solutions@.map_values(|j: Json| j@);
        let mut out: Vec<Solution> = Vec::new();
        let mut i: usize = 0;
        while i < solutions.len()
            invariant
                i <= solutions@.len(),
                views == solutions@.map_values(|j: Json| j@),
                out@.len() == i,
                forall|k: int| 0 <= k < i ==> #[trigger] items_of(Some(views[k])) is Some
                    && solution_of(items_of(Some(views[k]))->Some_0) is Some,
                forall|k: int| 0 <= k < i ==> (#[trigger] out@[k]).wf()
                    && out@[k]@ == solution_of(items_of(Some(views[k]))->Some_0)->Some_0,
            decreases solutions@.len() - i,
        {
            match &solutions[i] {
                Json::Array(bs) => {
                    let ghost jv = solutions@[i as int]@;
                    assert(jv->Array_0 =~= bs@.map_values(|j: Json| j@));
                    match parse_solution(bs) {
                        Some(sol) => {
                            out.push(sol);
                        },
                        None => {
                            assert(!(items_of(Some(views[i as int])) is Some
                                && solution_of(items_of(Some(views[i as int]))->Some_0) is Some));
                            return Err(invalid_state("unexpected binding in solution"));
                        },
                    }
                },
                _ => {
                    assert(views[i as int] == solutions@[i as int]@);
                    assert(!(items_of(Some(views[i as int])) is Some));
                    return Err(invalid_state("expected a list of bindings for a solution"));
                },
            }
            i = i + 1;
        }
        let r = QueryResult::Solutions(out);
        assert(r@->Solutions_0 =~= solutions_of(views));
        Ok(r)
    }
}

/// Whether `char::is_uppercase` holds of `c`.
pub uninterp spec fn uppercase_char(c: char) -> bool;

/// Relies on `char::is_uppercase`: whether `c` has the Unicode Uppercase
/// property, which depends on `c` alone.
#[verifier::external_body]
fn is_uppercase(c: char) -> (r: bool)
    ensures
        r == uppercase_char(c),
{
    c.is_uppercase()
}

/// A name written as a variable: it starts with an upper case letter or `_`.
pub open spec fn variable_like(s: Seq<char>) -> bool {
    s.len() > 0 && (uppercase_char(s[0]) || s[0] == '_')
}

fn text_is_variable_like(s: &str) -> (r: bool)
    ensures
        r == variable_like(s@),
{
    if s.unicode_len() == 0 {
        return false;
    }
    let c = s.get_char(0);
    is_uppercase(c) || c == '_'
}

/// Whether `json` is an object with members `functor` and `args`.
pub fn is_prolog_functor(json: &Json) -> (r: bool)
    ensures
        r == (json@ is Object && member(json@, functor_key()) is Some && member(json@, args_key()) is Some),
{
    proof {
        reveal_strlit("functor");
        reveal_strlit("args");
        assert("functor"@ =~= functor_key());
        assert("args"@ =~= args_key());
    }
    match json {
        Json::Object(_) => json.get("functor").is_some() && json.get("args").is_some(),
        _ => false,
    }
}

/// Whether `json` is a list.
pub fn is_prolog_list(json: &Json) -> (r: bool)
    ensures
        r == json@ is Array,
{
    match json {
        Json::Array(_) => true,
        _ => false,
    }
}

/// Whether `json` is a string written as a variable.
pub fn is_prolog_variable(json: &Json) -> (r: bool)
    ensures
        r == (json@ is Str && variable_like(json@->Str_0)),
{
    match json {
        Json::Str(s) => text_is_variable_like(s.as_str()),
        _ => false,
    }
}

/// Whether `json` is a string not written as a variable.
pub fn is_prolog_atom(json: &Json) -> (r: bool)
    ensures
        r == (json@ is Str && !variable_like(json@->Str_0)),
{
    match json {
        Json::Str(s) => !text_is_variable_like(s.as_str()),
        _ => false,
    }
}

/// The name of an atom or variable, or the functor of a compound.
pub fn prolog_name(json: &Json) -> (r: Option<&str>)
    ensures
        json@ is Str ==> r is Some && r->Some_0@ == json@->Str_0,
        json@ is Object ==> (r is Some <==> text_of(member(json@, functor_key())) is Some) && (r is Some
            ==> r->Some_0@ == text_of(member(json@, functor_key()))->Some_0),
        !(json@ is Str) && !(json@ is Object) ==> r is None,
{
    proof {
        reveal_strlit("functor");
        assert("functor"@ =~= functor_key());
    }
    match json {
        Json::Str(s) => Some(s.as_str()),
        Json::Object(_) => match json.get("functor") {
            Some(Json::Str(f)) => Some(f.as_str()),
            _ => None,
        },
        _ => None,
    }
}

/// The arguments of a compound.
pub fn prolog_args(json: &Json) -> (r: Option<&Vec<Json>>)
    ensures
        r is Some <==> (json@ is Object && items_of(member(json@, args_key())) is Some),
        r is Some ==> items_of(member(json@, args_key()))->Some_0 =~= r->Some_0@.map_values(|j: Json| j@),
{
    proof {
        reveal_strlit("args");
        assert("args"@ =~= args_key());
    }
    match json {
        Json::Object(_) => match json.get("args") {
            Some(Json::Array(a)) => {
                proof {
                    let jv = Json::Array(*a)@;
                    assert(jv->Array_0 =~= a@.map_values(|j: Json| j@));
                }
                Some(a)
            },
            _ => None,
        },
        _ => None,
    }
}

} // verus!
