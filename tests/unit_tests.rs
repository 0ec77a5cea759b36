use swipl_rs::json::Json;
use swipl_rs::session::ConnectionAddr;
use swipl_rs::types::{
    is_prolog_atom, is_prolog_functor, is_prolog_list, is_prolog_variable, prolog_args, prolog_name,
    prolog_term_to_string, quote_prolog_identifier, term_to_value, value_to_term, PrologCompound,
    PrologTerm, QueryResult, Solution,
};

fn s(text: &str) -> Json {
    Json::Str(text.to_string())
}

fn num(i: i64) -> Json {
    Json::Int(i)
}

fn arr(items: Vec<Json>) -> Json {
    Json::Array(items)
}

fn obj(members: Vec<(&str, Json)>) -> Json {
    Json::Object(members.into_iter().map(|(k, v)| (k.to_string(), v)).collect())
}

fn compound(functor: &str, args: Vec<Json>) -> Json {
    obj(vec![("functor", s(functor)), ("args", arr(args))])
}

fn float(f: f64) -> String {
    f.to_string()
}

#[test]
fn it_works() {
    let result = 2 + 2;
    assert_eq!(result, 4);
}

#[test]
fn test_prolog_term_serialization() {
    let atom = PrologTerm::Atom("hello".to_string());
    assert_eq!(term_to_value(&atom), s("hello"));

    let var = PrologTerm::Variable("X".to_string());
    assert_eq!(term_to_value(&var), s("X"));

    let int_term = PrologTerm::Integer(42);
    assert_eq!(term_to_value(&int_term), num(42));

    let float_term = PrologTerm::Float(float(3.14));
    assert_eq!(term_to_value(&float_term), Json::Float("3.14".to_string()));

    let list = PrologTerm::List(vec![
        PrologTerm::Integer(1),
        PrologTerm::Integer(2),
        PrologTerm::Integer(3),
    ]);
    assert_eq!(term_to_value(&list), arr(vec![num(1), num(2), num(3)]));

    let compound_term = PrologTerm::Compound(PrologCompound {
        functor: "foo".to_string(),
        args: vec![PrologTerm::Atom("bar".to_string()), PrologTerm::Integer(42)],
    });
    assert_eq!(term_to_value(&compound_term), compound("foo", vec![s("bar"), num(42)]));
}

#[test]
fn test_prolog_term_deserialization() {
    assert_eq!(value_to_term(&s("hello")), PrologTerm::Atom("hello".to_string()));

    // strings decode as atoms, whatever their shape
    assert_eq!(value_to_term(&s("X")), PrologTerm::Atom("X".to_string()));
    assert!(is_prolog_variable(&s("X")));
    assert!(!is_prolog_atom(&s("X")));

    assert_eq!(value_to_term(&num(42)), PrologTerm::Integer(42));

    match value_to_term(&compound("foo", vec![s("bar"), num(42)])) {
        PrologTerm::Compound(c) => {
            assert_eq!(c.functor, "foo");
            assert_eq!(c.args.len(), 2);
        }
        _ => panic!("Expected Compound term"),
    }
}

fn binding(name: &str, value: Json) -> Json {
    compound("=", vec![s(name), value])
}

#[test]
fn test_query_result_parse_solutions() {
    let solutions = vec![arr(vec![])];
    match QueryResult::parse_solutions(&solutions).unwrap() {
        QueryResult::Solutions(sols) => {
            assert_eq!(sols.len(), 1);
            assert!(sols[0].is_empty());
        }
        _ => panic!("Expected Solutions"),
    }

    let solutions = vec![arr(vec![binding("X", num(42))])];
    match QueryResult::parse_solutions(&solutions).unwrap() {
        QueryResult::Solutions(sols) => {
            assert_eq!(sols.len(), 1);
            assert_eq!(sols[0].len(), 1);
            assert!(sols[0].contains_key("X"));
        }
        _ => panic!("Expected Solutions"),
    }

    let solutions = vec![arr(vec![binding("X", num(1)), binding("Y", s("hello"))])];
    match QueryResult::parse_solutions(&solutions).unwrap() {
        QueryResult::Solutions(sols) => {
            assert_eq!(sols.len(), 1);
            assert_eq!(sols[0].len(), 2);
            assert!(sols[0].contains_key("X"));
            assert!(sols[0].contains_key("Y"));
        }
        _ => panic!("Expected Solutions"),
    }

    let solutions = vec![
        arr(vec![binding("X", num(1))]),
        arr(vec![binding("X", num(2))]),
        arr(vec![binding("X", num(3))]),
    ];
    match QueryResult::parse_solutions(&solutions).unwrap() {
        QueryResult::Solutions(sols) => {
            assert_eq!(sols.len(), 3);
            for sol in &sols {
                assert_eq!(sol.len(), 1);
                assert!(sol.contains_key("X"));
            }
        }
        _ => panic!("Expected Solutions"),
    }
}

#[test]
fn test_prolog_json_helpers() {
    assert!(is_prolog_atom(&s("hello")));
    assert!(is_prolog_atom(&s("")));
    assert!(!is_prolog_atom(&s("X")));
    assert!(!is_prolog_atom(&s("_var")));
    assert!(!is_prolog_atom(&num(42)));

    assert!(is_prolog_variable(&s("X")));
    assert!(is_prolog_variable(&s("Variable")));
    assert!(is_prolog_variable(&s("_")));
    assert!(is_prolog_variable(&s("_var")));
    assert!(!is_prolog_variable(&s("hello")));
    assert!(!is_prolog_variable(&s("")));

    let functor = compound("foo", vec![num(1), num(2)]);
    assert!(is_prolog_functor(&functor));
    assert!(!is_prolog_functor(&s("atom")));
    assert!(!is_prolog_functor(&arr(vec![num(1), num(2), num(3)])));

    assert_eq!(prolog_name(&s("hello")), Some("hello"));
    assert_eq!(prolog_name(&s("X")), Some("X"));
    let functor = compound("foo", vec![]);
    assert_eq!(prolog_name(&functor), Some("foo"));
    assert_eq!(prolog_name(&num(42)), None);

    let functor = compound("foo", vec![num(1), num(2), num(3)]);
    let args = prolog_args(&functor).unwrap();
    assert_eq!(args.len(), 3);
    assert_eq!(prolog_args(&s("atom")), None);
}

#[test]
fn test_query_result_variants() {
    let success_true = QueryResult::Success(true);
    assert!(matches!(success_true, QueryResult::Success(true)));

    let success_false = QueryResult::Success(false);
    assert!(matches!(success_false, QueryResult::Success(false)));

    let mut solution = Solution::new();
    solution.insert("X".to_string(), PrologTerm::Integer(42));
    let solutions = QueryResult::Solutions(vec![solution]);
    match solutions {
        QueryResult::Solutions(sols) => {
            assert_eq!(sols.len(), 1);
            assert!(sols[0].contains_key("X"));
        }
        _ => panic!("Expected Solutions"),
    }
}

#[test]
fn test_prolog_term_to_string() {
    assert_eq!(prolog_term_to_string(&PrologTerm::Atom("hello".to_string())), "hello");
    assert_eq!(prolog_term_to_string(&PrologTerm::Atom("Hello".to_string())), "'Hello'");
    assert_eq!(
        prolog_term_to_string(&PrologTerm::Atom("hello world".to_string())),
        "'hello world'"
    );

    assert_eq!(prolog_term_to_string(&PrologTerm::Variable("X".to_string())), "X");
    assert_eq!(prolog_term_to_string(&PrologTerm::Variable("_Var".to_string())), "_Var");

    assert_eq!(prolog_term_to_string(&PrologTerm::Integer(42)), "42");
    assert_eq!(prolog_term_to_string(&PrologTerm::Float(float(3.14))), "3.14");

    assert_eq!(prolog_term_to_string(&PrologTerm::Bool(true)), "true");
    assert_eq!(prolog_term_to_string(&PrologTerm::Bool(false)), "false");

    let list = PrologTerm::List(vec![
        PrologTerm::Integer(1),
        PrologTerm::Integer(2),
        PrologTerm::Integer(3),
    ]);
    assert_eq!(prolog_term_to_string(&list), "[1, 2, 3]");

    let compound_term = PrologTerm::Compound(PrologCompound {
        functor: "foo".to_string(),
        args: vec![PrologTerm::Atom("bar".to_string()), PrologTerm::Integer(42)],
    });
    assert_eq!(prolog_term_to_string(&compound_term), "foo(bar, 42)");
}

#[test]
fn test_prolog_term_to_string_basic() {
    assert_eq!(prolog_term_to_string(&PrologTerm::Atom("hello".to_string())), "hello");
    assert_eq!(prolog_term_to_string(&PrologTerm::Atom("hello world".to_string())), "'hello world'");
    assert_eq!(prolog_term_to_string(&PrologTerm::Integer(123)), "123");
    assert_eq!(prolog_term_to_string(&PrologTerm::Variable("X".to_string())), "X");
    let list = PrologTerm::List(vec![PrologTerm::Atom("a".to_string()), PrologTerm::Integer(1)]);
    assert_eq!(prolog_term_to_string(&list), "[a, 1]");
    let compound_term = PrologTerm::Compound(PrologCompound {
        functor: "test".to_string(),
        args: vec![PrologTerm::Atom("arg".to_string())],
    });
    assert_eq!(prolog_term_to_string(&compound_term), "test(arg)");
}

#[test]
fn test_connection_addr() {
    let tcp_addr = ConnectionAddr::Tcp("127.0.0.1".to_string(), 8080);
    match tcp_addr {
        ConnectionAddr::Tcp(host, port) => {
            assert_eq!(host, "127.0.0.1");
            assert_eq!(port, 8080);
        }
        _ => panic!("Expected TCP address"),
    }

    let uds_addr = ConnectionAddr::Uds("/tmp/test.sock".to_string());
    match uds_addr {
        ConnectionAddr::Uds(path) => {
            assert_eq!(path, "/tmp/test.sock");
        }
        _ => panic!("Expected UDS address"),
    }
}

#[test]
fn quoting_rules() {
    assert_eq!(quote_prolog_identifier(""), "''");
    assert_eq!(quote_prolog_identifier("true"), "'true'");
    assert_eq!(quote_prolog_identifier("false"), "'false'");
    assert_eq!(quote_prolog_identifier("fail"), "'fail'");
    assert_eq!(quote_prolog_identifier("!"), "'!'");
    assert_eq!(quote_prolog_identifier("it's"), "'it''s'");
    assert_eq!(quote_prolog_identifier("foo_bar9"), "foo_bar9");
    assert_eq!(quote_prolog_identifier("_x"), "'_x'");
    assert_eq!(quote_prolog_identifier("été"), "été");
    assert_eq!(quote_prolog_identifier("Été"), "'Été'");
}

#[test]
fn rendering_of_other_values_and_integers() {
    assert_eq!(prolog_term_to_string(&PrologTerm::Other(Json::Null)), "null");
    let dict = obj(vec![("a", num(1)), ("b\"\n", s("x\u{1}y"))]);
    assert_eq!(
        prolog_term_to_string(&PrologTerm::Other(dict)),
        "{\"a\":1,\"b\\\"\\n\":\"x\\u0001y\"}"
    );
    assert_eq!(prolog_term_to_string(&PrologTerm::Integer(i64::MIN)), "-9223372036854775808");
    assert_eq!(prolog_term_to_string(&PrologTerm::Integer(-7)), "-7");
    assert_eq!(prolog_term_to_string(&PrologTerm::Integer(0)), "0");
    let nested = PrologTerm::Compound(PrologCompound {
        functor: "Point".to_string(),
        args: vec![PrologTerm::List(vec![]), PrologTerm::Other(arr(vec![Json::Bool(true), Json::Null]))],
    });
    assert_eq!(prolog_term_to_string(&nested), "'Point'([], [true,null])");
}

#[test]
fn value_decoding_shapes() {
    assert_eq!(value_to_term(&Json::Null), PrologTerm::Other(Json::Null));
    assert_eq!(value_to_term(&Json::Bool(true)), PrologTerm::Bool(true));
    assert_eq!(
        value_to_term(&Json::Float("2.5".to_string())),
        PrologTerm::Float("2.5".to_string())
    );
    assert_eq!(
        value_to_term(&arr(vec![s("a"), num(1)])),
        PrologTerm::List(vec![PrologTerm::Atom("a".to_string()), PrologTerm::Integer(1)])
    );
    // an object without a text functor is kept as it is
    let odd = obj(vec![("functor", num(1)), ("args", arr(vec![]))]);
    assert_eq!(
        value_to_term(&odd),
        PrologTerm::Other(obj(vec![("functor", num(1)), ("args", arr(vec![]))]))
    );
    let point = obj(vec![("args", arr(vec![num(1)])), ("functor", s("p"))]);
    assert_eq!(
        value_to_term(&point),
        PrologTerm::Compound(PrologCompound { functor: "p".to_string(), args: vec![PrologTerm::Integer(1)] })
    );
}

#[test]
fn term_value_round_trip_examples() {
    let term = PrologTerm::Compound(PrologCompound {
        functor: "f".to_string(),
        args: vec![
            PrologTerm::List(vec![PrologTerm::Integer(-3), PrologTerm::Bool(false)]),
            PrologTerm::Atom("a b".to_string()),
            PrologTerm::Float("1e10".to_string()),
        ],
    });
    let back = value_to_term(&term_to_value(&term));
    assert_eq!(back, term);
    // a variable comes back as an atom of the same name
    let var = PrologTerm::Variable("X".to_string());
    assert_eq!(value_to_term(&term_to_value(&var)), PrologTerm::Atom("X".to_string()));
}

#[test]
fn solution_insert_replaces_and_get_reads() {
    let mut sol = Solution::new();
    assert!(sol.is_empty());
    sol.insert("X".to_string(), PrologTerm::Integer(1));
    sol.insert("Y".to_string(), PrologTerm::Integer(2));
    sol.insert("X".to_string(), PrologTerm::Integer(3));
    assert_eq!(sol.len(), 2);
    assert_eq!(sol.get("X"), Some(&PrologTerm::Integer(3)));
    assert_eq!(sol.get("Y"), Some(&PrologTerm::Integer(2)));
    assert_eq!(sol.get("Z"), None);
    assert!(!sol.contains_key("Z"));
}

#[test]
fn is_prolog_list_only_for_arrays() {
    assert!(is_prolog_list(&arr(vec![])));
    assert!(!is_prolog_list(&s("[]")));
}

#[test]
fn clones_are_equal() {
    let term = PrologTerm::Compound(PrologCompound {
        functor: "f".to_string(),
        args: vec![PrologTerm::List(vec![PrologTerm::Other(obj(vec![("k", Json::Null)]))])],
    });
    assert_eq!(term.clone(), term);
    let value = term_to_value(&term);
    assert_eq!(value.clone(), value);
}

#[test]
fn control_characters_are_escaped() {
    let text = PrologTerm::Other(s("\u{8}\u{c}\t\r\\\u{1f}é"));
    assert_eq!(prolog_term_to_string(&text), "\"\\b\\f\\t\\r\\\\\\u001fé\"");
}
