use swipl_rs::error::PrologError;
use swipl_rs::json::Json;
use swipl_rs::server::{create_prolog_path, launch_args, validate_config, ServerConfig};
use swipl_rs::session::{
    check_protocol_version, parse_initial_true_args, parse_response, PrologSession, Reply,
    SessionState,
};
use swipl_rs::types::{PrologCompound, PrologTerm, QueryResult};

fn s(text: &str) -> Json {
    Json::Str(text.to_string())
}

fn num(i: i64) -> Json {
    Json::Int(i)
}

fn arr(items: Vec<Json>) -> Json {
    Json::Array(items)
}

fn compound(functor: &str, args: Vec<Json>) -> Json {
    Json::Object(vec![
        ("functor".to_string(), s(functor)),
        ("args".to_string(), arr(args)),
    ])
}

fn binding(name: &str, value: Json) -> Json {
    compound("=", vec![s(name), value])
}

fn true_reply(solutions: Vec<Json>) -> Json {
    compound("true", vec![arr(solutions)])
}

fn exception(term: Json) -> Json {
    compound("exception", vec![term])
}

fn handshake(major: i64, minor: i64) -> Json {
    true_reply(vec![arr(vec![
        compound("threads", vec![s("comm"), s("goal")]),
        compound("version", vec![num(major), num(minor)]),
    ])])
}

fn session() -> PrologSession {
    PrologSession::connect(&handshake(1, 0)).unwrap()
}

fn frame_text(frame: &[u8]) -> String {
    String::from_utf8(frame.to_vec()).unwrap()
}

#[test]
fn solutions_keep_their_order() {
    let reply = true_reply(vec![
        arr(vec![binding("X", num(1))]),
        arr(vec![binding("X", num(2))]),
    ]);
    match parse_response(&reply).unwrap() {
        QueryResult::Solutions(sols) => {
            assert_eq!(sols.len(), 2);
            assert_eq!(sols[0].get("X"), Some(&PrologTerm::Integer(1)));
            assert_eq!(sols[1].get("X"), Some(&PrologTerm::Integer(2)));
        }
        other => panic!("expected solutions, got {:?}", other),
    }
}

#[test]
fn deterministic_success_and_failure() {
    assert!(matches!(parse_response(&true_reply(vec![])), Ok(QueryResult::Success(true))));
    assert!(matches!(parse_response(&compound("false", vec![])), Ok(QueryResult::Success(false))));
    assert!(matches!(parse_response(&s("false")), Ok(QueryResult::Success(false))));
}

#[test]
fn malformed_replies_are_invalid_state() {
    assert!(matches!(parse_response(&s("true")), Err(PrologError::InvalidState(_))));
    assert!(matches!(parse_response(&compound("maybe", vec![])), Err(PrologError::InvalidState(_))));
    assert!(matches!(
        parse_response(&compound("true", vec![num(1)])),
        Err(PrologError::InvalidState(_))
    ));
    assert!(matches!(
        parse_response(&true_reply(vec![arr(vec![compound("=", vec![num(1), num(2)])])])),
        Err(PrologError::InvalidState(_))
    ));
    assert!(matches!(
        parse_response(&true_reply(vec![arr(vec![compound("-", vec![s("X"), num(2)])])])),
        Err(PrologError::InvalidState(_))
    ));
    assert!(matches!(
        parse_response(&true_reply(vec![num(3)])),
        Err(PrologError::InvalidState(_))
    ));
    assert!(matches!(
        parse_response(&compound("exception", vec![])),
        Err(PrologError::InvalidState(_))
    ));
}

#[test]
fn exception_kinds_map_to_errors() {
    assert_eq!(parse_response(&exception(s("time_limit_exceeded"))).unwrap_err(), PrologError::Timeout);
    assert_eq!(parse_response(&exception(s("no_query"))).unwrap_err(), PrologError::NoQuery);
    assert_eq!(parse_response(&exception(s("cancel_goal"))).unwrap_err(), PrologError::QueryCancelled);
    assert_eq!(
        parse_response(&exception(s("result_not_available"))).unwrap_err(),
        PrologError::ResultNotAvailable
    );
    assert!(matches!(
        parse_response(&exception(s("connection_failed"))),
        Err(PrologError::ConnectionFailed(_))
    ));
    let custom = compound("my_custom_error", vec![num(1)]);
    assert_eq!(
        parse_response(&exception(compound("my_custom_error", vec![num(1)]))).unwrap_err(),
        PrologError::PrologException { kind: "my_custom_error".to_string(), term: Some(custom) }
    );
    assert_eq!(
        parse_response(&exception(arr(vec![]))).unwrap_err(),
        PrologError::PrologException { kind: "complex_exception".to_string(), term: Some(arr(vec![])) }
    );
}

#[test]
fn version_gate() {
    assert!(check_protocol_version(0, 0).is_ok());
    assert!(check_protocol_version(1, 0).is_ok());
    assert!(check_protocol_version(1, 7).is_ok());
    assert_eq!(
        check_protocol_version(2, 0).unwrap_err(),
        PrologError::VersionMismatch { client: "1.0".to_string(), server: "2.0".to_string() }
    );
    assert!(matches!(check_protocol_version(0, 3), Err(PrologError::VersionMismatch { .. })));
    assert!(PrologSession::connect(&handshake(0, 0)).is_ok());
    assert!(matches!(
        PrologSession::connect(&handshake(2, 0)),
        Err(PrologError::VersionMismatch { .. })
    ));
}

#[test]
fn handshake_shapes() {
    assert_eq!(
        parse_initial_true_args(&handshake(1, 2)).unwrap(),
        (Some("comm".to_string()), Some("goal".to_string()), 1, 2)
    );
    assert_eq!(parse_initial_true_args(&true_reply(vec![])).unwrap(), (None, None, 0, 0));
    let no_version = true_reply(vec![arr(vec![compound("threads", vec![s("c"), s("g")])])]);
    assert_eq!(
        parse_initial_true_args(&no_version).unwrap(),
        (Some("c".to_string()), Some("g".to_string()), 0, 0)
    );
    let bad = true_reply(vec![arr(vec![compound("other", vec![s("c"), s("g")])])]);
    assert!(matches!(parse_initial_true_args(&bad), Err(PrologError::InvalidState(_))));
    let bad_version = true_reply(vec![arr(vec![
        compound("threads", vec![s("c"), s("g")]),
        compound("version", vec![num(-1), num(0)]),
    ])]);
    assert!(matches!(parse_initial_true_args(&bad_version), Err(PrologError::InvalidState(_))));
}

#[test]
fn rejected_password() {
    assert_eq!(
        PrologSession::connect(&exception(s("password_mismatch"))).unwrap_err(),
        PrologError::AuthenticationFailed
    );
    assert_eq!(
        PrologSession::connect(&compound("false", vec![])).unwrap_err(),
        PrologError::AuthenticationFailed
    );
    assert_eq!(PrologSession::password_frame("secret"), b"8.\nsecret.\n".to_vec());
}

#[test]
fn query_commands() {
    let mut session = session();
    assert_eq!(session.server_version(), (1, 0));
    let frame = session.query("  member(X, [1,2]). ", None).unwrap();
    assert_eq!(frame_text(&frame), "28.\nrun((member(X, [1,2])), _).\n");
    let frame = session.query("true", Some("5")).unwrap();
    assert_eq!(frame_text(&frame), "16.\nrun((true), 5).\n");
    let frame = session.query_async("p(X)", true, None).unwrap();
    assert_eq!(frame_text(&frame), "28.\nrun_async((p(X)), _, true).\n");
    let frame = session.query_async("p(X)", false, Some("0.5")).unwrap();
    assert_eq!(frame_text(&frame), "31.\nrun_async((p(X)), 0.5, false).\n");
    let frame = session.query_async_result(None).unwrap();
    assert_eq!(frame_text(&frame), "18.\nasync_result(-1).\n");
    let frame = session.query_async_result(Some("2")).unwrap();
    assert_eq!(frame_text(&frame), "17.\nasync_result(2).\n");
    let frame = session.cancel_async().unwrap();
    assert_eq!(frame_text(&frame), "14.\ncancel_async.\n");
}

#[test]
fn async_results_until_exhausted() {
    let mut session = session();
    session.query_async("member(X, [1,2,3])", false, None).unwrap();
    let ack = true_reply(vec![arr(vec![])]);
    assert!(matches!(session.receive(&ack), Ok(Reply::Accepted)));
    assert_eq!(session.state(), SessionState::AsyncPending);
    let mut seen = 0;
    for value in 1..=3 {
        session.query_async_result(None).unwrap();
        let reply = true_reply(vec![arr(vec![binding("X", num(value))])]);
        match session.receive(&reply) {
            Ok(Reply::Next(Some(QueryResult::Solutions(sols)))) => {
                assert_eq!(sols[0].get("X"), Some(&PrologTerm::Integer(value)));
                seen += 1;
            }
            other => panic!("expected a result, got {:?}", other),
        }
    }
    session.query_async_result(None).unwrap();
    assert!(matches!(session.receive(&exception(s("no_more_results"))), Ok(Reply::Next(None))));
    assert_eq!(seen, 3);
    assert_eq!(session.state(), SessionState::Ready);
}

#[test]
fn async_result_not_ready_keeps_the_query() {
    let mut session = session();
    session.query_async("slow", true, None).unwrap();
    assert!(matches!(session.receive(&true_reply(vec![])), Ok(Reply::Accepted)));
    session.query_async_result(Some("0")).unwrap();
    assert_eq!(
        session.receive(&exception(s("result_not_available"))).unwrap_err(),
        PrologError::ResultNotAvailable
    );
    assert_eq!(session.state(), SessionState::AsyncPending);
    session.query_async_result(None).unwrap();
    assert_eq!(session.receive(&exception(s("time_limit_exceeded"))).unwrap_err(), PrologError::Timeout);
    assert_eq!(session.state(), SessionState::Ready);
}

#[test]
fn cancel_and_unexpected_acks() {
    let mut session = session();
    session.query_async("loop", true, None).unwrap();
    assert!(matches!(
        session.receive(&compound("false", vec![])),
        Err(PrologError::InvalidState(_))
    ));
    session.cancel_async().unwrap();
    assert_eq!(session.receive(&exception(s("no_query"))).unwrap_err(), PrologError::NoQuery);
    session.cancel_async().unwrap();
    assert!(matches!(session.receive(&true_reply(vec![])), Ok(Reply::Accepted)));
    assert!(matches!(session.receive(&true_reply(vec![])), Err(PrologError::InvalidState(_))));
}

#[test]
fn sync_query_reply() {
    let mut session = session();
    session.query("X = f(a)", None).unwrap();
    let reply = true_reply(vec![arr(vec![binding("X", compound("f", vec![s("a")]))])]);
    match session.receive(&reply) {
        Ok(Reply::Result(QueryResult::Solutions(sols))) => {
            assert_eq!(
                sols[0].get("X"),
                Some(&PrologTerm::Compound(PrologCompound {
                    functor: "f".to_string(),
                    args: vec![PrologTerm::Atom("a".to_string())],
                }))
            );
        }
        other => panic!("unexpected {:?}", other),
    }
}

#[test]
fn close_is_terminal_and_idempotent() {
    let mut session = session();
    let frame = session.close().unwrap();
    assert_eq!(frame_text(&frame), "7.\nclose.\n");
    assert!(matches!(session.receive(&true_reply(vec![])), Ok(Reply::Closed)));
    assert_eq!(session.state(), SessionState::Closed);
    assert!(session.close().is_none());
    assert!(matches!(session.query("true", None), Err(PrologError::InvalidState(_))));
}

#[test]
fn halt_and_connection_failure_set_the_flag() {
    let mut session = session();
    let frame = session.halt_server().unwrap();
    assert_eq!(frame_text(&frame), "6.\nquit.\n");
    assert!(!session.connection_failed());
    assert!(matches!(session.receive(&true_reply(vec![])), Ok(Reply::Halted)));
    assert!(session.connection_failed());

    let mut other = self::session();
    other.query("true", None).unwrap();
    assert!(matches!(
        other.receive(&exception(s("connection_failed"))),
        Err(PrologError::ConnectionFailed(_))
    ));
    assert!(other.connection_failed());
}

#[test]
fn config_rules() {
    let config = ServerConfig::new();
    assert!(validate_config(&config).is_ok());
    let mut both = ServerConfig::new();
    both.port = Some(4242);
    both.unix_domain_socket = Some("/tmp/s".to_string());
    assert!(matches!(validate_config(&both), Err(PrologError::InvalidState(_))));
    let mut standalone = ServerConfig::new();
    standalone.launch_mqi = false;
    standalone.port = Some(4242);
    assert!(matches!(validate_config(&standalone), Err(PrologError::InvalidState(_))));
    standalone.password = Some("pw".to_string());
    assert!(validate_config(&standalone).is_ok());
    standalone.output_file_name = Some("out.txt".to_string());
    assert!(matches!(validate_config(&standalone), Err(PrologError::InvalidState(_))));
}

#[test]
fn launch_command_line() {
    let mut config = ServerConfig::new();
    config.port = Some(4242);
    config.pending_connection_count = Some(3);
    config.query_timeout_seconds = Some("1.5".to_string());
    config.prolog_path_args = Some(vec!["-q".to_string()]);
    assert_eq!(
        launch_args(&config, "pw"),
        vec![
            "mqi",
            "--write_connection_values=true",
            "--password=pw",
            "--port=4242",
            "--pending_connections=3",
            "--query_timeout=1.5",
            "-q",
        ]
    );
    let mut uds = ServerConfig::new();
    uds.unix_domain_socket = Some(String::new());
    assert_eq!(
        launch_args(&uds, "pw"),
        vec!["mqi", "--write_connection_values=true", "--password=pw", "--create_unix_domain_socket=true"]
    );
}

#[test]
fn paths_must_be_utf8() {
    assert_eq!(create_prolog_path("/tmp/été".as_bytes()).unwrap(), "/tmp/été");
    assert!(matches!(create_prolog_path(&[0x2f, 0xff]), Err(PrologError::InvalidState(_))));
}

#[test]
fn server_config_default_launches() {
    let config = ServerConfig::default();
    assert!(config.launch_mqi);
    assert_eq!(config.port, None);
    assert_eq!(config.password, None);
    assert_eq!(config.unix_domain_socket, None);
    assert_eq!(config.query_timeout_seconds, None);
    assert_eq!(config.pending_connection_count, None);
    assert_eq!(config.output_file_name, None);
    assert_eq!(config.mqi_traces, None);
    assert_eq!(config.prolog_path, None);
    assert_eq!(config.prolog_path_args, None);
}
