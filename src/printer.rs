//! Best-effort rendering of terms in Prolog syntax, for diagnostics.

use vstd::prelude::*;
use vstd::string::*;
use crate::json::{Json, JsonView};
use crate::text::{i64_text, int_text};
use crate::types::{text_is, PrologTerm, TermView};

verus! {

/// Whether `char::is_lowercase` holds of `c`.
pub uninterp spec fn lowercase_char(c: char) -> bool;

/// Whether `char::is_alphanumeric` holds of `c`.
pub uninterp spec fn alphanumeric_char(c: char) -> bool;

/// Relies on `char::is_lowercase`: whether `c` has the Unicode Lowercase
/// property, which depends on `c` alone.
#[verifier::external_body]
fn is_lowercase(c: char) -> (r: bool)
    ensures
        r == lowercase_char(c),
{
    c.is_lowercase()
}

/// Relies on `char::is_alphanumeric`: whether `c` is alphabetic or numeric in
/// Unicode, which depends on `c` alone.
#[verifier::external_body]
fn is_alphanumeric(c: char) -> (r: bool)
    ensures
        r == alphanumeric_char(c),
{
    c.is_alphanumeric()
}

/// An atom must be quoted when it is empty, does not start with a lower case
/// letter, holds a character other than a letter, digit or `_`, or is one of
/// `true`, `false`, `fail` and `!`.
pub open spec fn needs_quotes(id: Seq<char>) -> bool {
    id.len() == 0 || !lowercase_char(id[0]) || (exists|i: int|
        0 <= i < id.len() && !(alphanumeric_char(id[i]) || id[i] == '_')) || id == "true"@ || id
        == "false"@ || id == "fail"@ || id == "!"@
}

/// `id` with each `'` doubled.
pub open spec fn double_quotes(id: Seq<char>) -> Seq<char>
    decreases id.len(),
{
    if id.len() == 0 {
        Seq::empty()
    } else {
        double_quotes(id.drop_last()) + if id.last() == '\'' {
            seq!['\'', '\'']
        } else {
            seq![id.last()]
        }
    }
}

/// An atom in Prolog syntax.
pub open spec fn atom_text(id: Seq<char>) -> Seq<char> {
    if needs_quotes(id) {
        seq!['\''] + double_quotes(id) + seq!['\'']
    } else {
        id
    }
}

/// Whether an atom must be quoted, as [`needs_quotes`] says.
pub fn atom_needs_quotes(id: &str) -> (r: bool)
    ensures
        r == needs_quotes(id@),
{
    let n = id.unicode_len();
    if n == 0 {
        return true;
    }
    if !is_lowercase(id.get_char(0)) {
        return true;
    }
    let mut i: usize = 0;
    while i < n
        invariant
            n == id@.len(),
            i <= n,
            forall|j: int| 0 <= j < i ==> alphanumeric_char(#[trigger] id@[j]) || id@[j] == '_',
        decreases n - i,
    {
        let c = id.get_char(i);
        if !(is_alphanumeric(c) || c == '_') {
            return true;
        }
        i = i + 1;
    }
    let s = String::from_str(id);
    text_is(&s, "true") || text_is(&s, "false") || text_is(&s, "fail") || text_is(&s, "!")
}

/// `id` between single quotes, each `'` in it doubled.
pub fn quote_atom(id: &str) -> (r: String)
    ensures
        r@ == seq!['\''] + double_quotes(id@) + seq!['\''],
{
    proof {
        reveal_strlit("'");
        reveal_strlit("''");
    }
    let n = id.unicode_len();
    let mut r = String::from_str("'");
    let mut i: usize = 0;
    while i < n
        invariant
            n == id@.len(),
            i <= n,
            "'"@ == seq!['\''],
            "''"@ == seq!['\'', '\''],
            r@ == seq!['\''] + double_quotes(id@.subrange(0, i as int)),
        decreases n - i,
    {
        let c = id.get_char(i);
        assert(id@.subrange(0, i + 1).drop_last() =~= id@.subrange(0, i as int));
        if c == '\'' {
            r.append("''");
        } else {
            r.append(id.substring_char(i, i + 1));
        }
        i = i + 1;
        assert(r@ =~= seq!['\''] + double_quotes(id@.subrange(0, i as int)));
    }
    assert(id@.subrange(0, n as int) =~= id@);
    r.append("'");
    r
}

/// Quotes an atom when Prolog syntax needs it.
pub fn quote_prolog_identifier(identifier: &str) -> (r: String)
    ensures
        r@ == atom_text(identifier@),
{
    if atom_needs_quotes(identifier) {
        quote_atom(identifier)
    } else {
        String::from_str(identifier)
    }
}

/// The parts, with `sep` between each two.
pub open spec fn join(parts: Seq<Seq<char>>, sep: Seq<char>) -> Seq<char>
    decreases parts.len(),
{
    if parts.len() == 0 {
        Seq::empty()
    } else if parts.len() == 1 {
        parts[0]
    } else {
        join(parts.drop_last(), sep) + sep + parts.last()
    }
}

proof fn lemma_join_step(parts: Seq<Seq<char>>, sep: Seq<char>, i: int)
    requires
        0 <= i < parts.len(),
    ensures
        join(parts.subrange(0, i + 1), sep) == if i == 0 {
            parts[0]
        } else {
            join(parts.subrange(0, i), sep) + sep + parts[i]
        },
{
    assert(parts.subrange(0, i + 1).drop_last() =~= parts.subrange(0, i));
}

pub open spec fn hex_digit(d: nat) -> char {
    if d < 10 {
        crate::text::digit_char(d)
    } else if d == 10 {
        'a'
    } else if d == 11 {
        'b'
    } else if d == 12 {
        'c'
    } else if d == 13 {
        'd'
    } else if d == 14 {
        'e'
    } else {
        'f'
    }
}

/// How a character is written inside a JSON string.
pub open spec fn escaped_char(c: char) -> Seq<char> {
    if c == '"' {
        seq!['\\', '"']
    } else if c == '\\' {
        seq!['\\', '\\']
    } else if c == '\n' {
        seq!['\\', 'n']
    } else if c == '\r' {
        seq!['\\', 'r']
    } else if c == '\t' {
        seq!['\\', 't']
    } else if c == '\x08' {
        seq!['\\', 'b']
    } else if c == '\x0c' {
        seq!['\\', 'f']
    } else if (c as u32) < 32 {
        seq!['\\', 'u', '0', '0', hex_digit((c as u32 / 16) as nat), hex_digit((c as u32 % 16) as nat)]
    } else {
        seq![c]
    }
}

pub open spec fn escaped(s: Seq<char>) -> Seq<char>
    decreases s.len(),
{
    if s.len() == 0 {
        Seq::empty()
    } else {
        escaped(s.drop_last()) + escaped_char(s.last())
    }
}

/// A JSON string literal.
pub open spec fn string_literal(s: Seq<char>) -> Seq<char> {
    seq!['"'] + escaped(s) + seq!['"']
}

/// Compact JSON text of a value, members in their order.
pub open spec fn json_text(v: JsonView) -> Seq<char>
    decreases v,
{
    match v {
        JsonView::Null => "null"@,
        JsonView::Bool(b) => if b {
            "true"@
        } else {
            "false"@
        },
        JsonView::Int(i) => int_text(i),
        JsonView::Float(f) => f,
        JsonView::Str(s) => string_literal(s),
        JsonView::Array(items) => "["@ + join(json_texts(items), ","@) + "]"@,
        JsonView::Object(names, values) => "{"@ + join(member_texts(names, values), ","@) + "}"@,
    }
}

pub open spec fn json_texts(items: Seq<JsonView>) -> Seq<Seq<char>>
    decreases items,
{
    Seq::new(
        items.len(),
        |i: int|
            if 0 <= i < items.len() {
                json_text(items[i])
            } else {
                Seq::empty()
            },
    )
}

pub open spec fn member_texts(names: Seq<Seq<char>>, values: Seq<JsonView>) -> Seq<Seq<char>>
    decreases values,
{
    Seq::new(
        values.len(),
        |i: int|
            if 0 <= i < values.len() {
                string_literal(names[i]) + ":"@ + json_text(values[i])
            } else {
                Seq::empty()
            },
    )
}

/// A term in Prolog syntax: atoms quoted where needed, compounds as
/// `functor(arg, ...)`, lists as `[item, ...]`; a value of no other shape as
/// its JSON text.
pub open spec fn term_text(t: TermView) -> Seq<char>
    decreases t,
{
    match t {
        TermView::Atom(s) => atom_text(s),
        TermView::Variable(s) => s,
        TermView::Integer(i) => int_text(i),
        TermView::Float(f) => f,
        TermView::Bool(b) => if b {
            "true"@
        } else {
            "false"@
        },
        TermView::List(items) => "["@ + join(term_texts(items), ", "@) + "]"@,
        TermView::Compound(f, args) => atom_text(f) + "("@ + join(term_texts(args), ", "@) + ")"@,
        TermView::Other(v) => json_text(v),
    }
}

pub open spec fn term_texts(items: Seq<TermView>) -> Seq<Seq<char>>
    decreases items,
{
    Seq::new(
        items.len(),
        |i: int|
            if 0 <= i < items.len() {
                term_text(items[i])
            } else {
                Seq::empty()
            },
    )
}

fn hex_str(d: u32) -> (r: &'static str)
    requires
        d < 16,
    ensures
        r@ == seq![hex_digit(d as nat)],
{
    proof {
        reveal_strlit("0");
        reveal_strlit("1");
        reveal_strlit("2");
        reveal_strlit("3");
        reveal_strlit("4");
        reveal_strlit("5");
        reveal_strlit("6");
        reveal_strlit("7");
        reveal_strlit("8");
        reveal_strlit("9");
        reveal_strlit("a");
        reveal_strlit("b");
        reveal_strlit("c");
        reveal_strlit("d");
        reveal_strlit("e");
        reveal_strlit("f");
    }
    let r = if d == 0 {
        "0"
    } else if d == 1 {
        "1"
    } else if d == 2 {
        "2"
    } else if d == 3 {
        "3"
    } else if d == 4 {
        "4"
    } else if d == 5 {
        "5"
    } else if d == 6 {
        "6"
    } else if d == 7 {
        "7"
    } else if d == 8 {
        "8"
    } else if d == 9 {
        "9"
    } else if d == 10 {
        "a"
    } else if d == 11 {
        "b"
    } else if d == 12 {
        "c"
    } else if d == 13 {
        "d"
    } else if d == 14 {
        "e"
    } else {
        "f"
    };
    assert(r@ =~= seq![hex_digit(d as nat)]);
    r
}

/// Appends `s` as a JSON string literal.
fn push_string_literal(out: &mut String, s: &str)
    ensures
        final(out)@ == old(out)@ + string_literal(s@),
{
    proof {
        reveal_strlit("\"");
        reveal_strlit("\\\"");
        reveal_strlit("\\\\");
        reveal_strlit("\\n");
        reveal_strlit("\\r");
        reveal_strlit("\\t");
        reveal_strlit("\\b");
        reveal_strlit("\\f");
        reveal_strlit("\\u00");
    }
    let n = s.unicode_len();
    out.append("\"");
    let ghost start = out@;
    let mut i: usize = 0;
    while i < n
        invariant
            n == s@.len(),
            i <= n,
            "\\\""@ == seq!['\\', '"'],
            "\\\\"@ == seq!['\\', '\\'],
            "\\n"@ == seq!['\\', 'n'],
            "\\r"@ == seq!['\\', 'r'],
            "\\t"@ == seq!['\\', 't'],
            "\\b"@ == seq!['\\', 'b'],
            "\\f"@ == seq!['\\', 'f'],
            "\\u00"@ == seq!['\\', 'u', '0', '0'],
            out@ == start + escaped(s@.subrange(0, i as int)),
        decreases n - i,
    {
        let c = s.get_char(i);
        assert(s@.subrange(0, i + 1).drop_last() =~= s@.subrange(0, i as int));
        let ghost before = out@;
        if c == '"' {
            out.append("\\\"");
        } else if c == '\\' {
            out.append("\\\\");
        } else if c == '\n' {
            out.append("\\n");
        } else if c == '\r' {
            out.append("\\r");
        } else if c == '\t' {
            out.append("\\t");
        } else if c == '\x08' {
            out.append("\\b");
        } else if c == '\x0c' {
            out.append("\\f");
        } else if (c as u32) < 32 {
            out.append("\\u00");
            out.append(hex_str(c as u32 / 16));
            out.append(hex_str(c as u32 % 16));
        } else {
            out.append(s.substring_char(i, i + 1));
        }
        assert(out@ =~= before + escaped_char(c));
        i = i + 1;
        assert(out@ =~= start + escaped(s@.subrange(0, i as int)));
    }
    assert(s@.subrange(0, n as int) =~= s@);
    out.append("\"");
    assert(final(out)@ =~= old(out)@ + string_literal(s@));
}

/// Compact JSON text of `v`, as [`json_text`] says.
pub fn json_to_text(v: &Json) -> (r: String)
    ensures
        r@ == json_text(v@),
    decreases v@,
{
    proof {
        reveal_strlit("[");
        reveal_strlit("]");
        reveal_strlit("{");
        reveal_strlit("}");
    }
    match v {
        Json::Null => String::from_str("null"),
        Json::Bool(b) => if *b {
            String::from_str("true")
        } else {
            String::from_str("false")
        },
        Json::Int(i) => i64_text(*i),
        Json::Float(f) => f.clone(),
        Json::Str(s) => {
            let mut out = String::new();
            push_string_literal(&mut out, s.as_str());
            out
        },
        Json::Array(items) => {
            let ghost vv = v@;
            assert forall|i: int| 0 <= i < items@.len() implies decreases_to!(vv => #[trigger] items@[i]@) by {
                assert(vv->Array_0[i] == items@[i]@);
                assert(decreases_to!(vv => vv->Array_0));
                assert(decreases_to!(vv->Array_0 => vv->Array_0[i]));
            }
            assert(vv->Array_0 =~= items@.map_values(|j: Json| j@));
            let mut out = String::from_str("[");
            push_json_items(&mut out, items, Ghost(vv));
            out.append("]");
            out
        },
        Json::Object(members) => {
            let ghost vv = v@;
            assert forall|i: int| 0 <= i < members@.len() implies decreases_to!(vv => #[trigger] members@[i].1@) by {
                assert(vv->Object_1[i] == members@[i].1@);
                assert(decreases_to!(vv => vv->Object_1));
                assert(decreases_to!(vv->Object_1 => vv->Object_1[i]));
            }
            assert(vv->Object_0 =~= Seq::new(members@.len(), |i: int| members@[i].0@));
            assert(vv->Object_1 =~= Seq::new(members@.len(), |i: int| members@[i].1@));
            let mut out = String::from_str("{");
            push_json_members(&mut out, members, Ghost(vv));
            out.append("}");
            out
        },
    }
}

fn push_json_items(out: &mut String, items: &Vec<Json>, Ghost(whole): Ghost<JsonView>)
    requires
        forall|i: int| 0 <= i < items@.len() ==> decreases_to!(whole => #[trigger] items@[i]@),
    ensures
        final(out)@ == old(out)@ + join(json_texts(items@.map_values(|j: Json| j@)), ","@),
    decreases whole, 0int,
{
    proof {
        reveal_strlit(",");
    }
    let ghost parts = json_texts(items@.map_values(|j: Json| j@));
    let ghost start = out@;
    let mut i: usize = 0;
    assert(parts.subrange(0, 0) =~= Seq::<Seq<char>>::empty());
    while i < items.len()
        invariant
            i <= items@.len(),
            parts == json_texts(items@.map_values(|j: Json| j@)),
            parts.len() == items@.len(),
            ","@ == seq![','],
            forall|j: int| 0 <= j < items@.len() ==> decreases_to!(whole => #[trigger] items@[j]@),
            out@ == start + join(parts.subrange(0, i as int), ","@),
        decreases items@.len() - i,
    {
        proof {
            lemma_join_step(parts, ","@, i as int);
        }
        if i > 0 {
            out.append(",");
        }
        let t = json_to_text(&items[i]);
        out.append(t.as_str());
        i = i + 1;
    }
    assert(parts.subrange(0, i as int) =~= parts);
}

fn push_json_members(out: &mut String, members: &Vec<(String, Json)>, Ghost(whole): Ghost<JsonView>)
    requires
        forall|i: int| 0 <= i < members@.len() ==> decreases_to!(whole => #[trigger] members@[i].1@),
    ensures
        final(out)@ == old(out)@ + join(
            member_texts(
                Seq::new(members@.len(), |i: int| members@[i].0@),
                Seq::new(members@.len(), |i: int| members@[i].1@),
            ),
            ","@,
        ),
    decreases whole, 0int,
{
    proof {
        reveal_strlit(",");
        reveal_strlit(":");
    }
    let ghost names = Seq::new(members@.len(), |i: int| members@[i].0@);
    let ghost values = Seq::new(members@.len(), |i: int| members@[i].1@);
    let ghost parts = member_texts(names, values);
    let ghost start = out@;
    let mut i: usize = 0;
    assert(parts.subrange(0, 0) =~= Seq::<Seq<char>>::empty());
    while i < members.len()
        invariant
            i <= members@.len(),
            names == Seq::new(members@.len(), |i: int| members@[i].0@),
            values == Seq::new(members@.len(), |i: int| members@[i].1@),
            parts == member_texts(names, values),
            parts.len() == members@.len(),
            ","@ == seq![','],
            ":"@ == seq![':'],
            forall|j: int| 0 <= j < members@.len() ==> decreases_to!(whole => #[trigger] members@[j].1@),
            out@ == start + join(parts.subrange(0, i as int), ","@),
        decreases members@.len() - i,
    {
        proof {
            lemma_join_step(parts, ","@, i as int);
        }
        if i > 0 {
            out.append(",");
        }
        let (k, v) = &members[i];
        let mut part = String::new();
        push_string_literal(&mut part, k.as_str());
        part.append(":");
        let t = json_to_text(v);
        part.append(t.as_str());
        assert(part@ =~= parts[i as int]);
        out.append(part.as_str());
        i = i + 1;
    }
    assert(parts.subrange(0, i as int) =~= parts);
}

/// Renders a term in Prolog syntax, as [`term_text`] says.
pub fn prolog_term_to_string(term: &PrologTerm) -> (r: String)
    ensures
        r@ == term_text(term@),
    decreases term@,
{
    proof {
        reveal_strlit("[");
        reveal_strlit("]");
        reveal_strlit("(");
        reveal_strlit(")");
    }
    match term {
        PrologTerm::Atom(s) => quote_prolog_identifier(s.as_str()),
        PrologTerm::Variable(s) => s.clone(),
        PrologTerm::Integer(i) => i64_text(*i),
        PrologTerm::Float(f) => f.clone(),
        PrologTerm::Bool(b) => if *b {
            String::from_str("true")
        } else {
            String::from_str("false")
        },
        PrologTerm::List(items) => {
            let ghost tv = term@;
            assert forall|i: int| 0 <= i < items@.len() implies decreases_to!(tv => #[trigger] items@[i]@) by {
                assert(tv->List_0[i] == items@[i]@);
                assert(decreases_to!(tv => tv->List_0));
                assert(decreases_to!(tv->List_0 => tv->List_0[i]));
            }
            assert(tv->List_0 =~= items@.map_values(|t: PrologTerm| t@));
            let mut out = String::from_str("[");
            push_terms(&mut out, items, Ghost(tv));
            out.append("]");
            out
        },
        PrologTerm::Compound(c) => {
            let ghost tv = term@;
            assert forall|i: int| 0 <= i < c.args@.len() implies decreases_to!(tv => #[trigger] c.args@[i]@) by {
                assert(tv->Compound_1[i] == c.args@[i]@);
                assert(decreases_to!(tv => tv->Compound_1));
                assert(decreases_to!(tv->Compound_1 => tv->Compound_1[i]));
            }
            assert(tv->Compound_1 =~= c.args@.map_values(|t: PrologTerm| t@));
            let mut out = quote_prolog_identifier(c.functor.as_str());
            out.append("(");
            push_terms(&mut out, &c.args, Ghost(tv));
            out.append(")");
            out
        },
        PrologTerm::Other(v) => json_to_text(v),
    }
}

fn push_terms(out: &mut String, items: &Vec<PrologTerm>, Ghost(whole): Ghost<TermView>)
    requires
        forall|i: int| 0 <= i < items@.len() ==> decreases_to!(whole => #[trigger] items@[i]@),
    ensures
        final(out)@ == old(out)@ + join(term_texts(items@.map_values(|t: PrologTerm| t@)), ", "@),
    decreases whole, 0int,
{
    proof {
        reveal_strlit(", ");
    }
    let ghost parts = term_texts(items@.map_values(|t: PrologTerm| t@));
    let ghost start = out@;
    let mut i: usize = 0;
    assert(parts.subrange(0, 0) =~= Seq::<Seq<char>>::empty());
    while i < items.len()
        invariant
            i <= items@.len(),
            parts == term_texts(items@.map_values(|t: PrologTerm| t@)),
            parts.len() == items@.len(),
            forall|j: int| 0 <= j < items@.len() ==> decreases_to!(whole => #[trigger] items@[j]@),
            out@ == start + join(parts.subrange(0, i as int), ", "@),
        decreases items@.len() - i,
    {
        proof {
            lemma_join_step(parts, ", "@, i as int);
        }
        if i > 0 {
            out.append(", ");
        }
        let t = prolog_term_to_string(&items[i]);
        out.append(t.as_str());
        i = i + 1;
    }
    assert(parts.subrange(0, i as int) =~= parts);
}

} // verus!
