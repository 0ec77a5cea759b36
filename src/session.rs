//! The session protocol engine: the handshake, the commands of a session and
//! how each reply is read. The engine owns no channel: each operation gives
//! the frame to send, and the reply, once parsed, is handed back to it.

use vstd::prelude::*;
use vstd::string::*;
use crate::frame::{frame_bytes, send_message};
use crate::error::{invalid_state, ErrorView, PrologError};
use crate::json::{args_key, functor_key, items_of, member, text_of, Json, JsonView};
use crate::text::{nat_text, push_nat_text};
use crate::types::{solutions_of, solutions_valid, text_is, QueryResult, QueryResultView};

verus! {

/// Where the server listens.
#[derive(Debug, Clone, PartialEq, Eq)]
pub enum ConnectionAddr {
    /// Host name or address, and port.
    Tcp(String, u16),
    /// Path of a local domain socket.
    Uds(String),
}

/// The model of an operation's result.
pub open spec fn result_view(r: Result<QueryResult, PrologError>) -> Result<QueryResultView, ErrorView> {
    match r {
        Ok(q) => Ok(q@),
        Err(e) => Err(e@),
    }
}

/// The kind of an exception term: the text of a plain string, else the
/// functor of a compound.
pub open spec fn exception_kind(t: JsonView) -> Seq<char> {
    match t {
        JsonView::Str(s) => s,
        _ => match text_of(member(t, functor_key())) {
            Some(f) => f,
            None => "complex_exception"@,
        },
    }
}

/// The error that an exception term stands for.
pub open spec fn exception_error(t: JsonView) -> ErrorView {
    let kind = exception_kind(t);
    if kind == "connection_failed"@ {
        ErrorView::ConnectionFailed
    } else if kind == "time_limit_exceeded"@ {
        ErrorView::Timeout
    } else if kind == "no_query"@ {
        ErrorView::NoQuery
    } else if kind == "cancel_goal"@ {
        ErrorView::QueryCancelled
    } else if kind == "result_not_available"@ {
        ErrorView::ResultNotAvailable
    } else {
        ErrorView::PrologException(kind, Some(t))
    }
}

/// What a reply to a goal means: `true([Solutions])`, `false`, or
/// `exception(Term)`.
pub open spec fn response_outcome(v: JsonView) -> Result<QueryResultView, ErrorView> {
    if v == JsonView::Str("false"@) {
        Ok(QueryResultView::Success(false))
    } else {
        let args = items_of(member(v, args_key()));
        match text_of(member(v, functor_key())) {
            Some(f) => if f == "true"@ {
                if args is Some && args->Some_0.len() == 1 && args->Some_0[0] is Array {
                    let sols = args->Some_0[0]->Array_0;
                    if sols.len() == 0 {
                        Ok(QueryResultView::Success(true))
                    } else if solutions_valid(sols) {
                        Ok(QueryResultView::Solutions(solutions_of(sols)))
                    } else {
                        Err(ErrorView::InvalidState)
                    }
                } else {
                    Err(ErrorView::InvalidState)
                }
            } else if f == "false"@ {
                Ok(QueryResultView::Success(false))
            } else if f == "exception"@ {
                if args is Some && args->Some_0.len() == 1 {
                    Err(exception_error(args->Some_0[0]))
                } else {
                    Err(ErrorView::InvalidState)
                }
            } else {
                Err(ErrorView::InvalidState)
            },
            None => Err(ErrorView::InvalidState),
        }
    }
}

/// The text of a string value.
fn as_text(v: Option<&Json>) -> (r: Option<&String>)
    ensures
        r is Some <==> text_of(match v { Some(j) => Some(j@), None => None }) is Some,
        r is Some ==> r->Some_0@ == text_of(match v { Some(j) => Some(j@), None => None })->Some_0,
{
    match v {
        Some(Json::Str(s)) => Some(s),
        _ => None,
    }
}

/// The error for an exception term.
pub fn exception_to_error(t: &Json) -> (r: PrologError)
    ensures
        r@ == exception_error(t@),
{
    proof {
        reveal_strlit("functor");
        assert("functor"@ =~= functor_key());
    }
    let kind: String = match t {
        Json::Str(s) => s.clone(),
        _ => match as_text(t.get("functor")) {
            Some(f) => f.clone(),
            None => String::from_str("complex_exception"),
        },
    };
    if text_is(&kind, "connection_failed") {
        PrologError::ConnectionFailed(String::from_str("the server reported a lost connection"))
    } else if text_is(&kind, "time_limit_exceeded") {
        PrologError::Timeout
    } else if text_is(&kind, "no_query") {
        PrologError::NoQuery
    } else if text_is(&kind, "cancel_goal") {
        PrologError::QueryCancelled
    } else if text_is(&kind, "result_not_available") {
        PrologError::ResultNotAvailable
    } else {
        PrologError::PrologException { kind, term: Some(t.clone()) }
    }
}

/// Reads the reply to a goal, as [`response_outcome`] says.
pub fn parse_response(v: &Json) -> (r: Result<QueryResult, PrologError>)
    ensures
        result_view(r) == response_outcome(v@),
        r is Ok ==> r->Ok_0.wf(),
{
    proof {
        reveal_strlit("functor");
        reveal_strlit("args");
        assert("functor"@ =~= functor_key());
        assert("args"@ =~= args_key());
    }
    if let Json::Str(s) = v {
        if text_is(s, "false") {
            return Ok(QueryResult::Success(false));
        }
    }
    assert(v@ != JsonView::Str("false"@));
    let f = match as_text(v.get("functor")) {
        Some(f) => f,
        None => {
            return Err(invalid_state("the reply has no functor"));
        },
    };
    let args: Option<&Vec<Json>> = match v.get("args") {
        Some(Json::Array(a)) => Some(a),
        _ => None,
    };
    if text_is(f, "true") {
        match args {
            Some(a) => {
                if a.len() == 1 {
                    match &a[0] {
                        Json::Array(sols) => {
                            let ghost jv = a@[0]@;
                            assert(jv->Array_0 =~= sols@.map_values(|j: Json| j@));
                            if sols.len() == 0 {
                                Ok(QueryResult::Success(true))
                            } else {
                                QueryResult::parse_solutions(sols.as_slice())
                            }
                        },
                        _ => Err(invalid_state("expected a list of solutions in a 'true' reply")),
                    }
                } else {
                    Err(invalid_state("unexpected arguments of a 'true' reply"))
                }
            },
            None => Err(invalid_state("unexpected arguments of a 'true' reply")),
        }
    } else if text_is(f, "false") {
        Ok(QueryResult::Success(false))
    } else if text_is(f, "exception") {
        match args {
            Some(a) => {
                if a.len() == 1 {
                    Err(exception_to_error(&a[0]))
                } else {
                    Err(invalid_state("unexpected arguments of an 'exception' reply"))
                }
            },
            None => Err(invalid_state("unexpected arguments of an 'exception' reply")),
        }
    } else {
        Err(invalid_state("unknown reply"))
    }
}

/// The protocol major version that this client speaks.
pub const REQUIRED_MAJOR: u32 = 1;

/// The protocol minor version that this client was written against.
pub const REQUIRED_MINOR: u32 = 0;

/// A version number: a whole number that fits `u32`.
pub open spec fn version_number(v: JsonView) -> Option<nat> {
    match v {
        JsonView::Int(i) => if 0 <= i <= u32::MAX {
            Some(i as nat)
        } else {
            None
        },
        _ => None,
    }
}

pub open spec fn opt_text(o: Option<String>) -> Option<Seq<char>> {
    match o {
        Some(s) => Some(s@),
        None => None,
    }
}

/// What the reply `true([[threads(Comm, Goal), version(Major, Minor)]])`
/// to the password gives: the two thread ids and the version. `true([[]])`
/// gives no ids and version 0.0, and so does a reply without `version`,
/// with the ids.
pub open spec fn handshake_outcome(v: JsonView) -> Result<
    (Option<Seq<char>>, Option<Seq<char>>, nat, nat),
    ErrorView,
> {
    let args = items_of(member(v, args_key()));
    if args is Some && args->Some_0.len() == 1 && args->Some_0[0] is Array {
        let outer = args->Some_0[0]->Array_0;
        if outer.len() == 0 {
            Ok((None, None, 0, 0))
        } else if outer[0] is Array && outer[0]->Array_0.len() >= 1 {
            let inner = outer[0]->Array_0;
            let cargs = items_of(member(inner[0], args_key()));
            if text_of(member(inner[0], functor_key())) == Some("threads"@) && cargs is Some
                && cargs->Some_0.len() == 2 {
                let comm = text_of(Some(cargs->Some_0[0]));
                let goal = text_of(Some(cargs->Some_0[1]));
                let vargs = items_of(member(inner[1], args_key()));
                if inner.len() >= 2 && text_of(member(inner[1], functor_key())) == Some("version"@)
                    && vargs is Some && vargs->Some_0.len() == 2 {
                    match (version_number(vargs->Some_0[0]), version_number(vargs->Some_0[1])) {
                        (Some(major), Some(minor)) => Ok((comm, goal, major, minor)),
                        _ => Err(ErrorView::InvalidState),
                    }
                } else {
                    Ok((comm, goal, 0, 0))
                }
            } else {
                Err(ErrorView::InvalidState)
            }
        } else {
            Err(ErrorView::InvalidState)
        }
    } else {
        Err(ErrorView::InvalidState)
    }
}

fn text_copy(v: Option<&Json>) -> (r: Option<String>)
    ensures
        opt_text(r) == text_of(match v { Some(j) => Some(j@), None => None }),
{
    match v {
        Some(Json::Str(s)) => Some(s.clone()),
        _ => None,
    }
}

fn version_of(v: &Json) -> (r: Option<u32>)
    ensures
        r is Some <==> version_number(v@) is Some,
        r is Some ==> r->Some_0 as nat == version_number(v@)->Some_0,
{
    match v {
        Json::Int(i) => {
            if 0 <= *i && *i <= 4294967295 {
                Some(*i as u32)
            } else {
                None
            }
        },
        _ => None,
    }
}

/// The items of an array member.
fn member_items<'a>(v: &'a Json, key: &str) -> (r: Option<&'a Vec<Json>>)
    ensures
        r is Some <==> items_of(member(v@, key@)) is Some,
        r is Some ==> items_of(member(v@, key@))->Some_0 =~= r->Some_0@.map_values(|j: Json| j@),
{
    match v.get(key) {
        Some(Json::Array(a)) => {
            proof {
                let jv = Json::Array(*a)@;
                assert(jv->Array_0 =~= a@.map_values(|j: Json| j@));
            }
            Some(a)
        },
        _ => None,
    }
}

/// Reads the reply to the password, as [`handshake_outcome`] says.
pub fn parse_initial_true_args(v: &Json) -> (r: Result<(Option<String>, Option<String>, u32, u32), PrologError>)
    ensures
        r is Ok <==> handshake_outcome(v@) is Ok,
        r is Ok ==> handshake_outcome(v@)->Ok_0 == (
            opt_text(r->Ok_0.0),
            opt_text(r->Ok_0.1),
            r->Ok_0.2 as nat,
            r->Ok_0.3 as nat,
        ),
        r is Err ==> r->Err_0@ == ErrorView::InvalidState,
{
    proof {
        reveal_strlit("functor");
        reveal_strlit("args");
        assert("functor"@ =~= functor_key());
        assert("args"@ =~= args_key());
    }
    let args = match member_items(v, "args") {
        Some(a) => a,
        None => {
            return Err(invalid_state("unexpected arguments of the reply to the password"));
        },
    };
    if args.len() != 1 {
        return Err(invalid_state("unexpected arguments of the reply to the password"));
    }
    let outer = match &args[0] {
        Json::Array(o) => o,
        _ => {
            return Err(invalid_state("unexpected arguments of the reply to the password"));
        },
    };
    proof {
        let jv = args@[0]@;
        assert(jv->Array_0 =~= outer@.map_values(|j: Json| j@));
    }
    if outer.len() == 0 {
        return Ok((None, None, 0, 0));
    }
    let inner = match &outer[0] {
        Json::Array(i) => i,
        _ => {
            return Err(invalid_state("unexpected arguments of the reply to the password"));
        },
    };
    proof {
        let jv = outer@[0]@;
        assert(jv->Array_0 =~= inner@.map_values(|j: Json| j@));
    }
    if inner.len() == 0 {
        return Err(invalid_state("unexpected arguments of the reply to the password"));
    }
    let first = &inner[0];
    let is_threads = match as_text(first.get("functor")) {
        Some(f) => text_is(f, "threads"),
        None => false,
    };
    let cargs = match member_items(first, "args") {
        Some(c) => c,
        None => {
            return Err(invalid_state("missing thread ids in the reply to the password"));
        },
    };
    if !is_threads || cargs.len() != 2 {
        return Err(invalid_state("missing thread ids in the reply to the password"));
    }
    let comm = text_copy(Some(&cargs[0]));
    let goal = text_copy(Some(&cargs[1]));
    if inner.len() < 2 {
        return Ok((comm, goal, 0, 0));
    }
    let second = &inner[1];
    let is_version = match as_text(second.get("functor")) {
        Some(f) => text_is(f, "version"),
        None => false,
    };
    let vargs = match member_items(second, "args") {
        Some(a) => a,
        None => {
            return Ok((comm, goal, 0, 0));
        },
    };
    if !is_version || vargs.len() != 2 {
        return Ok((comm, goal, 0, 0));
    }
    match (version_of(&vargs[0]), version_of(&vargs[1])) {
        (Some(major), Some(minor)) => Ok((comm, goal, major, minor)),
        _ => Err(invalid_state("invalid protocol version numbers")),
    }
}

/// The version text `major.minor`.
pub open spec fn version_text(major: nat, minor: nat) -> Seq<char> {
    nat_text(major) + seq!['.'] + nat_text(minor)
}

/// Accepts version 0.0, which older servers report, and every version
/// whose major number is [`REQUIRED_MAJOR`].
pub fn check_protocol_version(major: u32, minor: u32) -> (r: Result<(), PrologError>)
    ensures
        r is Ok <==> (major == 0 && minor == 0) || major == REQUIRED_MAJOR,
        r is Err ==> r->Err_0@ == ErrorView::VersionMismatch(
            version_text(REQUIRED_MAJOR as nat, REQUIRED_MINOR as nat),
            version_text(major as nat, minor as nat),
        ),
{
    if major == 0 && minor == 0 {
        return Ok(());
    }
    if major == REQUIRED_MAJOR {
        Ok(())
    } else {
        proof {
            reveal_strlit(".");
        }
        let mut client = String::new();
        push_nat_text(&mut client, REQUIRED_MAJOR as u64);
        client.append(".");
        push_nat_text(&mut client, REQUIRED_MINOR as u64);
        let mut server = String::new();
        push_nat_text(&mut server, major as u64);
        server.append(".");
        push_nat_text(&mut server, minor as u64);
        assert(client@ =~= version_text(REQUIRED_MAJOR as nat, REQUIRED_MINOR as nat));
        assert(server@ =~= version_text(major as nat, minor as nat));
        Err(PrologError::VersionMismatch { client, server })
    }
}

/// A goal's text with one trailing `'.'` removed.
pub open spec fn strip_dot(g: Seq<char>) -> Seq<char> {
    if g.len() > 0 && g.last() == '.' {
        g.drop_last()
    } else {
        g
    }
}

/// The text of `str::trim` applied to `s`.
pub uninterp spec fn trimmed(s: Seq<char>) -> Seq<char>;

/// Relies on `str::trim`: leading and trailing white space removed; the
/// result depends on the text alone.
#[verifier::external_body]
fn trim_text(s: &str) -> (r: String)
    ensures
        r@ == trimmed(s@),
{
    s.trim().to_string()
}

/// A goal as it is sent: trimmed, and one trailing `'.'` removed.
pub open spec fn goal_text(g: Seq<char>) -> Seq<char> {
    strip_dot(trimmed(g))
}

/// Trims `goal` and removes one trailing `'.'`.
pub fn normalize_goal(goal: &str) -> (r: String)
    ensures
        r@ == goal_text(goal@),
{
    let t = trim_text(goal);
    strip_trailing_dot(&t)
}

/// Removes one trailing `'.'`.
pub fn strip_trailing_dot(g: &String) -> (r: String)
    ensures
        r@ == strip_dot(g@),
{
    let n = g.as_str().unicode_len();
    if n > 0 && g.as_str().get_char(n - 1) == '.' {
        let r = String::from_str(g.as_str().substring_char(0, n - 1));
        assert(r@ =~= strip_dot(g@));
        r
    } else {
        g.clone()
    }
}

/// `t` when given, else `default`.
pub open spec fn or_text(t: Option<Seq<char>>, default: Seq<char>) -> Seq<char> {
    match t {
        Some(s) => s,
        None => default,
    }
}

pub open spec fn opt_str(t: Option<&str>) -> Option<Seq<char>> {
    match t {
        Some(s) => Some(s@),
        None => None,
    }
}

/// `run((Goal), Timeout).`, the timeout unbound (`_`) when not given.
pub open spec fn run_text(goal: Seq<char>, timeout: Option<Seq<char>>) -> Seq<char> {
    "run(("@ + goal + "), "@ + or_text(timeout, "_"@) + ")."@
}

/// `run_async((Goal), Timeout, FindAll).`
pub open spec fn run_async_text(goal: Seq<char>, timeout: Option<Seq<char>>, find_all: bool) -> Seq<char> {
    "run_async(("@ + goal + "), "@ + or_text(timeout, "_"@) + ", "@ + (if find_all {
        "true"@
    } else {
        "false"@
    }) + ")."@
}

/// `async_result(Wait).`, waiting without a bound (`-1`) when not given.
pub open spec fn async_result_text(wait: Option<Seq<char>>) -> Seq<char> {
    "async_result("@ + or_text(wait, "-1"@) + ")."@
}

/// The command that runs an already normalized goal.
pub fn run_command(goal: &str, timeout_seconds: Option<&str>) -> (r: String)
    ensures
        r@ == run_text(goal@, opt_str(timeout_seconds)),
{
    let mut c = String::from_str("run((");
    c.append(goal);
    c.append("), ");
    match timeout_seconds {
        Some(t) => c.append(t),
        None => c.append("_"),
    }
    c.append(").");
    c
}

/// The command that starts an already normalized goal asynchronously.
pub fn run_async_command(goal: &str, find_all: bool, timeout_seconds: Option<&str>) -> (r: String)
    ensures
        r@ == run_async_text(goal@, opt_str(timeout_seconds), find_all),
{
    let mut c = String::from_str("run_async((");
    c.append(goal);
    c.append("), ");
    match timeout_seconds {
        Some(t) => c.append(t),
        None => c.append("_"),
    }
    c.append(", ");
    if find_all {
        c.append("true");
    } else {
        c.append("false");
    }
    c.append(").");
    c
}

/// The command that asks for the next asynchronous result.
pub fn async_result_command(wait_timeout_seconds: Option<&str>) -> (r: String)
    ensures
        r@ == async_result_text(opt_str(wait_timeout_seconds)),
{
    let mut c = String::from_str("async_result(");
    match wait_timeout_seconds {
        Some(t) => c.append(t),
        None => c.append("-1"),
    }
    c.append(").");
    c
}

/// Where a session stands.
#[derive(Debug, Clone, Copy, PartialEq, Eq, Structural)]
pub enum SessionState {
    Ready,
    /// An asynchronous query was accepted and its results are not exhausted.
    AsyncPending,
    Closed,
}

/// The command whose reply the session waits for.
#[derive(Debug, Clone, Copy, PartialEq, Eq, Structural)]
pub enum Request {
    Nothing,
    Query,
    QueryAsync,
    AsyncResult,
    Cancel,
    Close,
    Halt,
}

/// What a reply meant for the command it answered.
#[derive(Debug)]
pub enum Reply {
    /// The result of a goal run with `query`.
    Result(QueryResult),
    /// `query_async` or `cancel_async` was accepted.
    Accepted,
    /// The next result of an asynchronous query; `None` once all are out.
    Next(Option<QueryResult>),
    /// The session is closed.
    Closed,
    /// The server accepted to stop.
    Halted,
}

pub enum ReplyView {
    Result(QueryResultView),
    Accepted,
    Next(Option<QueryResultView>),
    Closed,
    Halted,
}

impl View for Reply {
    type V = ReplyView;

    open spec fn view(&self) -> ReplyView {
        match self {
            Reply::Result(q) => ReplyView::Result(q@),
            Reply::Accepted => ReplyView::Accepted,
            Reply::Next(Some(q)) => ReplyView::Next(Some(q@)),
            Reply::Next(None) => ReplyView::Next(None),
            Reply::Closed => ReplyView::Closed,
            Reply::Halted => ReplyView::Halted,
        }
    }
}

/// The protocol state of one connection to the server.
#[derive(Debug)]
pub struct PrologSession {
    communication_thread_id: Option<String>,
    goal_thread_id: Option<String>,
    server_protocol_major: u32,
    server_protocol_minor: u32,
    state: SessionState,
    pending: Request,
    connection_failed: bool,
}

pub struct SessionView {
    pub communication_thread_id: Option<Seq<char>>,
    pub goal_thread_id: Option<Seq<char>>,
    pub major: nat,
    pub minor: nat,
    pub state: SessionState,
    pub pending: Request,
    /// The server reported a lost connection, or accepted to stop.
    pub connection_failed: bool,
}

impl View for PrologSession {
    type V = SessionView;

    closed spec fn view(&self) -> SessionView {
        SessionView {
            communication_thread_id: opt_text(self.communication_thread_id),
            goal_thread_id: opt_text(self.goal_thread_id),
            major: self.server_protocol_major as nat,
            minor: self.server_protocol_minor as nat,
            state: self.state,
            pending: self.pending,
            connection_failed: self.connection_failed,
        }
    }
}

/// A reply that accepts a command: `true([[]])`, or one solution that binds
/// nothing.
pub open spec fn is_ack(q: QueryResultView) -> bool {
    q == QueryResultView::Success(true) || (q is Solutions && q->Solutions_0.len() == 1
        && q->Solutions_0[0].dom().len() == 0)
}

/// What a reply means for the command `pending`.
pub open spec fn reply_outcome(pending: Request, v: JsonView) -> Result<ReplyView, ErrorView> {
    let o = response_outcome(v);
    match pending {
        Request::Nothing => Err(ErrorView::InvalidState),
        Request::Query => match o {
            Ok(q) => Ok(ReplyView::Result(q)),
            Err(e) => Err(e),
        },
        Request::QueryAsync | Request::Cancel => match o {
            Ok(q) => if is_ack(q) {
                Ok(ReplyView::Accepted)
            } else {
                Err(ErrorView::InvalidState)
            },
            Err(e) => Err(e),
        },
        Request::AsyncResult => match o {
            Ok(q) => Ok(ReplyView::Next(Some(q))),
            Err(e) => if e is PrologException && e->PrologException_0 == "no_more_results"@ {
                Ok(ReplyView::Next(None))
            } else {
                Err(e)
            },
        },
        Request::Close => Ok(ReplyView::Closed),
        Request::Halt => match o {
            Ok(q) => if q == QueryResultView::Success(true) {
                Ok(ReplyView::Halted)
            } else {
                Err(ErrorView::InvalidState)
            },
            Err(e) => Err(e),
        },
    }
}

/// The state after the reply to `pending` came back as `outcome`.
pub open spec fn state_after(
    state: SessionState,
    pending: Request,
    outcome: Result<ReplyView, ErrorView>,
) -> SessionState {
    match (pending, outcome) {
        (Request::QueryAsync, Ok(_)) => SessionState::AsyncPending,
        (Request::Cancel, Ok(_)) => SessionState::Ready,
        (Request::AsyncResult, Ok(ReplyView::Next(None))) => SessionState::Ready,
        (Request::AsyncResult, Err(ErrorView::ResultNotAvailable)) => state,
        (Request::AsyncResult, Err(_)) => SessionState::Ready,
        _ => state,
    }
}

pub open spec fn reply_view(r: Result<Reply, PrologError>) -> Result<ReplyView, ErrorView> {
    match r {
        Ok(q) => Ok(q@),
        Err(e) => Err(e@),
    }
}

/// Whether the reply `v` to the password opens a session.
pub open spec fn connect_outcome(v: JsonView) -> Result<SessionView, ErrorView> {
    if text_of(member(v, functor_key())) != Some("true"@) {
        Err(ErrorView::AuthenticationFailed)
    } else {
        match handshake_outcome(v) {
            Err(e) => Err(e),
            Ok((comm, goal, major, minor)) => if (major == 0 && minor == 0) || major == REQUIRED_MAJOR {
                Ok(
                    SessionView {
                        communication_thread_id: comm,
                        goal_thread_id: goal,
                        major,
                        minor,
                        state: SessionState::Ready,
                        pending: Request::Nothing,
                        connection_failed: false,
                    },
                )
            } else {
                Err(
                    ErrorView::VersionMismatch(
                        version_text(REQUIRED_MAJOR as nat, REQUIRED_MINOR as nat),
                        version_text(major, minor),
                    ),
                )
            },
        }
    }
}

impl PrologSession {
    /// The frame that sends the password, the first message of a connection.
    pub fn password_frame(password: &str) -> (r: Vec<u8>)
        ensures
            r@ == frame_bytes(password@),
    {
        let mut out: Vec<u8> = Vec::new();
        send_message(&mut out, password);
        assert(out@ =~= frame_bytes(password@));
        out
    }

    /// Opens a session from the server's reply to the password: any reply
    /// but `true(...)` means the password was rejected; then the version is
    /// checked.
    pub fn connect(reply: &Json) -> (r: Result<PrologSession, PrologError>)
        ensures
            r is Ok <==> connect_outcome(reply@) is Ok,
            r is Ok ==> r->Ok_0@ == connect_outcome(reply@)->Ok_0,
            r is Err ==> r->Err_0@ == connect_outcome(reply@)->Err_0,
    {
        proof {
            reveal_strlit("functor");
            assert("functor"@ =~= functor_key());
        }
        let is_true = match as_text(reply.get("functor")) {
            Some(f) => text_is(f, "true"),
            None => false,
        };
        if !is_true {
            return Err(PrologError::AuthenticationFailed);
        }
        let (comm, goal, major, minor) = match parse_initial_true_args(reply) {
            Ok(t) => t,
            Err(e) => {
                return Err(e);
            },
        };
        match check_protocol_version(major, minor) {
            Ok(()) => Ok(
                PrologSession {
                    communication_thread_id: comm,
                    goal_thread_id: goal,
                    server_protocol_major: major,
                    server_protocol_minor: minor,
                    state: SessionState::Ready,
                    pending: Request::Nothing,
                    connection_failed: false,
                },
            ),
            Err(e) => Err(e),
        }
    }

    /// Protocol version that the server reported.
    pub fn server_version(&self) -> (r: (u32, u32))
        ensures
            r.0 as nat == self@.major,
            r.1 as nat == self@.minor,
    {
        (self.server_protocol_major, self.server_protocol_minor)
    }

    pub fn state(&self) -> (r: SessionState)
        ensures
            r == self@.state,
    {
        self.state
    }

    /// Whether the server reported a lost connection or accepted to stop.
    pub fn connection_failed(&self) -> (r: bool)
        ensures
            r == self@.connection_failed,
    {
        self.connection_failed
    }

    /// Records that the connection is known to be down.
    pub fn mark_connection_failed(&mut self)
        ensures
            final(self)@ == (SessionView { connection_failed: true, ..old(self)@ }),
    {
        self.connection_failed = true;
    }

    /// Frames `command` as the next request, unless the session is closed.
    fn issue(&mut self, command: &String, request: Request) -> (r: Result<Vec<u8>, PrologError>)
        ensures
            old(self)@.state == SessionState::Closed ==> r is Err && r->Err_0@ == ErrorView::InvalidState
                && final(self)@ == old(self)@,
            old(self)@.state != SessionState::Closed ==> r is Ok && r->Ok_0@ == frame_bytes(command@)
                && final(self)@ == (SessionView { pending: request, ..old(self)@ }),
    {
        if self.state == SessionState::Closed {
            return Err(invalid_state("the session is closed"));
        }
        let mut out: Vec<u8> = Vec::new();
        send_message(&mut out, command.as_str());
        assert(out@ =~= frame_bytes(command@));
        self.pending = request;
        Ok(out)
    }

    /// The frame that runs `goal` and waits for all its solutions. A
    /// pending asynchronous query is superseded. A time limit is given as a
    /// number literal in seconds, such as `5` or `0.5`.
    pub fn query(&mut self, goal: &str, timeout_seconds: Option<&str>) -> (r: Result<Vec<u8>, PrologError>)
        ensures
            old(self)@.state == SessionState::Closed ==> r is Err && r->Err_0@ == ErrorView::InvalidState
                && final(self)@ == old(self)@,
            old(self)@.state != SessionState::Closed ==> r is Ok
                && r->Ok_0@ == frame_bytes(run_text(goal_text(goal@), opt_str(timeout_seconds)))
                && final(self)@ == (SessionView {
                    pending: Request::Query,
                    state: SessionState::Ready,
                    ..old(self)@
                }),
    {
        let g = normalize_goal(goal);
        let command = run_command(g.as_str(), timeout_seconds);
        let r = self.issue(&command, Request::Query);
        if r.is_ok() {
            self.state = SessionState::Ready;
        }
        r
    }

    /// The frame that starts `goal` asynchronously; `find_all` asks for all
    /// solutions at once.
    pub fn query_async(&mut self, goal: &str, find_all: bool, timeout_seconds: Option<&str>) -> (r: Result<Vec<u8>, PrologError>)
        ensures
            old(self)@.state == SessionState::Closed ==> r is Err && r->Err_0@ == ErrorView::InvalidState
                && final(self)@ == old(self)@,
            old(self)@.state != SessionState::Closed ==> r is Ok
                && r->Ok_0@ == frame_bytes(run_async_text(goal_text(goal@), opt_str(timeout_seconds), find_all))
                && final(self)@ == (SessionView { pending: Request::QueryAsync, ..old(self)@ }),
    {
        let g = normalize_goal(goal);
        let command = run_async_command(g.as_str(), find_all, timeout_seconds);
        self.issue(&command, Request::QueryAsync)
    }

    /// The frame that asks for the next result of the asynchronous query.
    pub fn query_async_result(&mut self, wait_timeout_seconds: Option<&str>) -> (r: Result<Vec<u8>, PrologError>)
        ensures
            old(self)@.state == SessionState::Closed ==> r is Err && r->Err_0@ == ErrorView::InvalidState
                && final(self)@ == old(self)@,
            old(self)@.state != SessionState::Closed ==> r is Ok
                && r->Ok_0@ == frame_bytes(async_result_text(opt_str(wait_timeout_seconds)))
                && final(self)@ == (SessionView { pending: Request::AsyncResult, ..old(self)@ }),
    {
        let command = async_result_command(wait_timeout_seconds);
        self.issue(&command, Request::AsyncResult)
    }

    /// The frame that cancels the asynchronous query.
    pub fn cancel_async(&mut self) -> (r: Result<Vec<u8>, PrologError>)
        ensures
            old(self)@.state == SessionState::Closed ==> r is Err && r->Err_0@ == ErrorView::InvalidState
                && final(self)@ == old(self)@,
            old(self)@.state != SessionState::Closed ==> r is Ok
                && r->Ok_0@ == frame_bytes("cancel_async."@)
                && final(self)@ == (SessionView { pending: Request::Cancel, ..old(self)@ }),
    {
        let command = String::from_str("cancel_async.");
        self.issue(&command, Request::Cancel)
    }

    /// The frame that asks the server to stop.
    pub fn halt_server(&mut self) -> (r: Result<Vec<u8>, PrologError>)
        ensures
            old(self)@.state == SessionState::Closed ==> r is Err && r->Err_0@ == ErrorView::InvalidState
                && final(self)@ == old(self)@,
            old(self)@.state != SessionState::Closed ==> r is Ok
                && r->Ok_0@ == frame_bytes("quit."@)
                && final(self)@ == (SessionView { pending: Request::Halt, ..old(self)@ }),
    {
        let command = String::from_str("quit.");
        self.issue(&command, Request::Halt)
    }

    /// The frame that closes the session, the first time; `None` once it is
    /// closed.
    pub fn close(&mut self) -> (r: Option<Vec<u8>>)
        ensures
            old(self)@.state == SessionState::Closed ==> r is None && final(self)@ == old(self)@,
            old(self)@.state != SessionState::Closed ==> r is Some
                && r->Some_0@ == frame_bytes("close."@)
                && final(self)@ == (SessionView {
                    pending: Request::Close,
                    state: SessionState::Closed,
                    ..old(self)@
                }),
    {
        if self.state == SessionState::Closed {
            return None;
        }
        let command = String::from_str("close.");
        let mut out: Vec<u8> = Vec::new();
        send_message(&mut out, command.as_str());
        assert(out@ =~= frame_bytes("close."@));
        self.pending = Request::Close;
        self.state = SessionState::Closed;
        Some(out)
    }

    /// Reads the reply to the pending command, as [`reply_outcome`] says, and
    /// moves to the state that [`state_after`] gives.
    pub fn receive(&mut self, reply: &Json) -> (r: Result<Reply, PrologError>)
        ensures
            reply_view(r) == reply_outcome(old(self)@.pending, reply@),
            final(self)@ == (SessionView {
                pending: Request::Nothing,
                state: state_after(old(self)@.state, old(self)@.pending, reply_view(r)),
                connection_failed: old(self)@.connection_failed
                    || response_outcome(reply@) == Err::<QueryResultView, ErrorView>(ErrorView::ConnectionFailed)
                    || (old(self)@.pending == Request::Halt && r is Ok),
                ..old(self)@
            }),
    {
        let pending = self.pending;
        self.pending = Request::Nothing;
        let o = parse_response(reply);
        if let Err(PrologError::ConnectionFailed(_)) = &o {
            self.connection_failed = true;
        }
        if pending == Request::Nothing {
            return Err(invalid_state("no command is waiting for a reply"));
        }
        match pending {
            Request::Query => match o {
                Ok(q) => Ok(Reply::Result(q)),
                Err(e) => Err(e),
            },
            Request::QueryAsync | Request::Cancel => match o {
                Ok(q) => {
                    if is_ack_result(&q) {
                        self.state = if pending == Request::QueryAsync {
                            SessionState::AsyncPending
                        } else {
                            SessionState::Ready
                        };
                        Ok(Reply::Accepted)
                    } else {
                        Err(invalid_state("the command was not accepted"))
                    }
                },
                Err(e) => Err(e),
            },
            Request::AsyncResult => match o {
                Ok(q) => Ok(Reply::Next(Some(q))),
                Err(PrologError::PrologException { kind, term }) => {
                    self.state = SessionState::Ready;
                    if text_is(&kind, "no_more_results") {
                        Ok(Reply::Next(None))
                    } else {
                        Err(PrologError::PrologException { kind, term })
                    }
                },
                Err(PrologError::ResultNotAvailable) => Err(PrologError::ResultNotAvailable),
                Err(e) => {
                    self.state = SessionState::Ready;
                    Err(e)
                },
            },
            Request::Close => Ok(Reply::Closed),
            _ => match o {
                Ok(QueryResult::Success(true)) => {
                    self.connection_failed = true;
                    Ok(Reply::Halted)
                },
                Ok(_) => Err(invalid_state("the server did not accept to stop")),
                Err(e) => Err(e),
            },
        }
    }
}

/// Whether a result accepts a command.
fn is_ack_result(q: &QueryResult) -> (r: bool)
    requires
        q.wf(),
    ensures
        r == is_ack(q@),
{
    match q {
        QueryResult::Success(b) => *b,
        QueryResult::Solutions(s) => s.len() == 1 && s[0].is_empty(),
    }
}

} // verus!
