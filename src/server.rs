//! Rules of the server process that a session connects to: which settings
//! go together, and the command line that starts it.

use vstd::prelude::*;
use vstd::string::*;
use vstd::utf8::*;
use crate::error::{invalid_state, ErrorView, PrologError};
use crate::frame::utf8_to_string;
use crate::text::{nat_text, push_nat_text};

verus! {

/// How to reach or start the server.
#[derive(Debug)]
pub struct ServerConfig {
    /// Start the server process, rather than connect to a running one.
    pub launch_mqi: bool,
    pub port: Option<u16>,
    pub password: Option<String>,
    /// A local domain socket path; an empty path asks for a generated one.
    pub unix_domain_socket: Option<String>,
    /// Default time limit of a goal, in seconds, as decimal text.
    pub query_timeout_seconds: Option<String>,
    pub pending_connection_count: Option<u32>,
    pub output_file_name: Option<String>,
    pub mqi_traces: Option<String>,
    pub prolog_path: Option<String>,
    pub prolog_path_args: Option<Vec<String>>,
}

impl ServerConfig {
    /// Start a server, on a port it picks, with a generated password.
    pub fn new() -> (r: ServerConfig)
        ensures
            r.launch_mqi,
            r.port is None,
            r.password is None,
            r.unix_domain_socket is None,
            r.query_timeout_seconds is None,
            r.pending_connection_count is None,
            r.output_file_name is None,
            r.mqi_traces is None,
            r.prolog_path is None,
            r.prolog_path_args is None,
    {
        ServerConfig {
            launch_mqi: true,
            port: None,
            password: None,
            unix_domain_socket: None,
            query_timeout_seconds: None,
            pending_connection_count: None,
            output_file_name: None,
            mqi_traces: None,
            prolog_path: None,
            prolog_path_args: None,
        }
    }
}

impl Default for ServerConfig {
    fn default() -> (r: ServerConfig)
        ensures
            r.launch_mqi,
            r.port is None,
            r.password is None,
            r.unix_domain_socket is None,
            r.query_timeout_seconds is None,
            r.pending_connection_count is None,
            r.output_file_name is None,
            r.mqi_traces is None,
            r.prolog_path is None,
            r.prolog_path_args is None,
    {
        ServerConfig::new()
    }
}

/// Settings that cannot go together: a port and a socket; an output file
/// for a server that is not started here; a running server without a port
/// or socket, or without a password.
pub open spec fn config_conflict(c: ServerConfig) -> bool {
    (c.unix_domain_socket is Some && c.port is Some) || (!c.launch_mqi && c.output_file_name is Some)
        || (!c.launch_mqi && c.port is None && c.unix_domain_socket is None) || (!c.launch_mqi
        && c.password is None)
}

/// Checks that the settings go together.
pub fn validate_config(config: &ServerConfig) -> (r: Result<(), PrologError>)
    ensures
        r is Ok <==> !config_conflict(*config),
        r is Err ==> r->Err_0@ == ErrorView::InvalidState,
{
    if config.unix_domain_socket.is_some() && config.port.is_some() {
        return Err(invalid_state("cannot use both a port and a unix domain socket"));
    }
    if !config.launch_mqi && config.output_file_name.is_some() {
        return Err(invalid_state("an output file needs a server started here"));
    }
    if !config.launch_mqi && config.port.is_none() && config.unix_domain_socket.is_none() {
        return Err(invalid_state("a running server needs a port or a unix domain socket"));
    }
    if !config.launch_mqi && config.password.is_none() {
        return Err(invalid_state("a running server needs a password"));
    }
    Ok(())
}

/// A path as text: its bytes must be UTF-8.
pub fn create_prolog_path(path: &[u8]) -> (r: Result<String, PrologError>)
    ensures
        r is Ok <==> valid_utf8(path@),
        r is Ok ==> r->Ok_0@ == decode_utf8(path@),
        r is Err ==> r->Err_0@ == ErrorView::InvalidState,
{
    let mut bytes: Vec<u8> = Vec::new();
    bytes.extend_from_slice(path);
    assert(bytes@ =~= path@);
    match utf8_to_string(bytes) {
        Some(s) => Ok(s),
        None => Err(invalid_state("the path is not valid UTF-8")),
    }
}

pub open spec fn option_arg(name: Seq<char>, value: Seq<char>) -> Seq<char> {
    "--"@ + name + "="@ + value
}

/// The socket options of the command line.
pub open spec fn socket_args(c: ServerConfig) -> Seq<Seq<char>> {
    match c.unix_domain_socket {
        Some(p) => if p@.len() == 0 {
            seq!["--create_unix_domain_socket=true"@]
        } else {
            seq![option_arg("unix_domain_socket"@, p@)]
        },
        None => match c.port {
            Some(port) => seq![option_arg("port"@, nat_text(port as nat))],
            None => Seq::empty(),
        },
    }
}

/// The arguments that start a server with `password`.
pub open spec fn launch_arg_list(c: ServerConfig, password: Seq<char>) -> Seq<Seq<char>> {
    seq!["mqi"@, "--write_connection_values=true"@, option_arg("password"@, password)]
        + socket_args(c) + match c.pending_connection_count {
        Some(n) => seq![option_arg("pending_connections"@, nat_text(n as nat))],
        None => Seq::empty(),
    } + match c.query_timeout_seconds {
        Some(t) => seq![option_arg("query_timeout"@, t@)],
        None => Seq::empty(),
    } + match c.output_file_name {
        Some(f) => seq![option_arg("write_output_to_file"@, f@)],
        None => Seq::empty(),
    } + match c.prolog_path_args {
        Some(extra) => extra@.map_values(|a: String| a@),
        None => Seq::empty(),
    }
}

fn option_text(name: &str, value: &str) -> (r: String)
    ensures
        r@ == option_arg(name@, value@),
{
    let mut s = String::from_str("--");
    s.append(name);
    s.append("=");
    s.append(value);
    s
}

fn number_text(n: u64) -> (r: String)
    ensures
        r@ == nat_text(n as nat),
{
    let mut s = String::new();
    push_nat_text(&mut s, n);
    assert(s@ =~= nat_text(n as nat));
    s
}

/// The command line arguments that start a server with `password`.
pub fn launch_args(config: &ServerConfig, password: &str) -> (r: Vec<String>)
    ensures
        r@.map_values(|a: String| a@) == launch_arg_list(*config, password@),
{
    let mut args: Vec<String> = Vec::new();
    args.push(String::from_str("mqi"));
    args.push(String::from_str("--write_connection_values=true"));
    args.push(option_text("password", password));
    let ghost mut expected: Seq<Seq<char>> = seq!["mqi"@, "--write_connection_values=true"@, option_arg("password"@, password@)];
    assert(args@.map_values(|a: String| a@) =~= expected);
    match &config.unix_domain_socket {
        Some(p) => {
            if p.as_str().unicode_len() == 0 {
                args.push(String::from_str("--create_unix_domain_socket=true"));
            } else {
                args.push(option_text("unix_domain_socket", p.as_str()));
            }
        },
        None => match config.port {
            Some(port) => {
                let t = number_text(port as u64);
                args.push(option_text("port", t.as_str()));
            },
            None => {},
        },
    }
    proof {
        expected = expected + socket_args(*config);
    }
    assert(args@.map_values(|a: String| a@) =~= expected);
    match config.pending_connection_count {
        Some(n) => {
            let t = number_text(n as u64);
            args.push(option_text("pending_connections", t.as_str()));
        },
        None => {},
    }
    match &config.query_timeout_seconds {
        Some(t) => {
            args.push(option_text("query_timeout", t.as_str()));
        },
        None => {},
    }
    match &config.output_file_name {
        Some(f) => {
            args.push(option_text("write_output_to_file", f.as_str()));
        },
        None => {},
    }
    let ghost before_extra = args@;
    match &config.prolog_path_args {
        Some(extra) => {
            let mut i: usize = 0;
            while i < extra.len()
                invariant
                    i <= extra@.len(),
                    args@ == before_extra + extra@.subrange(0, i as int).map_values(|a: String| a),
                decreases extra@.len() - i,
            {
                args.push(extra[i].clone());
                i = i + 1;
                assert(args@ =~= before_extra + extra@.subrange(0, i as int).map_values(|a: String| a));
            }
            assert(extra@.subrange(0, i as int) =~= extra@);
        },
        None => {},
    }
    assert(args@.map_values(|a: String| a@) =~= launch_arg_list(*config, password@));
    args
}

} // verus!
