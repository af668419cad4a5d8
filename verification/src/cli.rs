//! The command-line surface: the commands and their arguments, exit
//! codes, and the URL handling of the status/health client. Running the
//! commands (processes, files, sockets) is the application's part.

use vstd::prelude::*;

use crate::input::mqtt::{find_last, last_index_of, lemma_last_index_of};
use crate::text::{
    chars_have_prefix, chars_of, concat2, concat3, debug_quoted, debug_string, first_occurrence, has_prefix, owned,
    parse_u16, parsed_u16, string_from_range,
};

verus! {

/// Exit code for a failed operation (validation/connection).
pub const EXIT_FAILURE: i32 = 1;

/// Exit code for a usage error.
pub const EXIT_USAGE: i32 = 2;

/// Default PID file for `deltu up`/`deltu down`.
pub const DEFAULT_PID_FILE: &'static str = "/tmp/deltu.pid";

/// The parsed command line.
#[derive(Debug, Clone, PartialEq)]
pub struct Cli {
    pub command: Command,
}

/// The CLI's commands.
#[derive(Debug, Clone, PartialEq)]
pub enum Command {
    /// Start the engine (HTTP + processing) in the foreground.
    Run { config: Option<String> },
    /// Validate a config file and exit (0 valid, 1 invalid).
    Check { config: String },
    /// Print the runtime status of a running instance (GET /v1/status).
    Status { url: String },
    /// Check engine liveness (GET /health).
    Health { url: String },
    /// Start the engine in the background and print the PID.
    Up { config: Option<String>, log_file: String, wait_secs: u64 },
    /// Stop a background engine started with `deltu up`.
    Down { pid_file: String, timeout_secs: u64 },
    /// Print the last N lines of the background engine's log.
    Logs { file: String, lines: usize, follow: bool },
    /// Generate a starter configuration file.
    Init { path: String },
    /// Run the self-contained live terminal demo.
    Demo,
    /// Diagnose the environment, port availability, and permissions.
    Doctor,
    /// Print the effective configuration.
    Config { config: Option<String>, format: String },
}

/// The position of the first `c` in `s`.
pub open spec fn first_index_of(s: Seq<char>, c: char) -> Option<int> {
    first_occurrence(s, seq![c])
}

/// What `http://host[:port][/path]` reads as: host, port (80 when
/// omitted) and path (`/` when omitted), or the error message.
pub open spec fn http_url_result(url: Seq<char>) -> Result<(Seq<char>, u16, Seq<char>), Seq<char>> {
    if !has_prefix(url, "http://"@) {
        Err("url must start with http://, got "@ + debug_quoted(url))
    } else {
        let rest = url.subrange(7, url.len() as int);
        let (authority, path) = match first_index_of(rest, '/') {
            Some(i) => (rest.subrange(0, i), "/"@ + rest.subrange(i + 1, rest.len() as int)),
            None => (rest, "/"@),
        };
        match last_index_of(authority, ':') {
            Some(j) => match parsed_u16(authority.subrange(j + 1, authority.len() as int)) {
                Some(port) => Ok((authority.subrange(0, j), port, path)),
                None => Err("invalid port in "@ + debug_quoted(url)),
            },
            None => Ok((authority, 80, path)),
        }
    }
}

/// Parses `http://host:port/path` into its parts (the only scheme the
/// status and health commands need).
pub fn parse_http_url(url: &str) -> (r: Result<(String, u16, String), String>)
    ensures
        match (r, http_url_result(url@)) {
            (Ok((h, p, path)), Ok((hv, pv, pathv))) => h@ == hv && p == pv && path@ == pathv,
            (Err(m), Err(e)) => m@ == e,
            _ => false,
        },
{
    let chars = chars_of(url);
    let scheme = chars_of("http://");
    proof {
        reveal_strlit("http://");
        reveal_strlit("/");
    }
    if !chars_have_prefix(&chars, &scheme) {
        let q = debug_string(url);
        return Err(concat2("url must start with http://, got ", q.as_str()));
    }
    let rest_s = string_from_range(&chars, 7, chars.len());
    let rest = chars_of(rest_s.as_str());
    let slash = chars_of("/");
    assert(slash@ =~= seq!['/']);
    let (authority_s, path) = match crate::text::chars_find(&rest, &slash) {
        Some(i) => {
            proof {
                crate::text::lemma_occurrence_found(rest@, slash@, 0);
            }
            let tail = string_from_range(&rest, i + 1, rest.len());
            (string_from_range(&rest, 0, i), concat2("/", tail.as_str()))
        },
        None => (string_from_range(&rest, 0, rest.len()), owned("/")),
    };
    proof {
        assert(rest@.subrange(0, rest@.len() as int) =~= rest@);
    }
    let authority = chars_of(authority_s.as_str());
    proof {
        assert(authority@.subrange(0, authority@.len() as int) =~= authority@);
    }
    match find_last(&authority, authority.len(), ':') {
        Some(j) => {
            proof {
                lemma_last_index_of(authority@, ':');
            }
            let port_s = string_from_range(&authority, j + 1, authority.len());
            match parse_u16(port_s.as_str()) {
                Some(port) => Ok((string_from_range(&authority, 0, j), port, path)),
                None => {
                    let q = debug_string(url);
                    Err(concat2("invalid port in ", q.as_str()))
                },
            }
        },
        None => Ok((authority_s, 80, path)),
    }
}

/// The base URL of an engine bound to `bind` (`http://{bind}`).
pub fn base_url_for(bind: &str) -> (r: String)
    ensures
        r@ == "http://"@ + bind@,
{
    concat2("http://", bind)
}

/// The request line and headers of the CLI's one GET.
pub fn http_get_request(host: &str, port: u16, path: &str) -> (r: String)
    ensures
        r@ == "GET "@ + path@ + " HTTP/1.1\r\nHost: "@ + host@ + ":"@ + crate::text::decimal_u64(port as u64)
            + "\r\nConnection: close\r\nAccept: application/json\r\n\r\n"@,
{
    let p = crate::text::u64_to_string(port as u64);
    let a = concat3("GET ", path, " HTTP/1.1\r\nHost: ");
    let b = concat3(a.as_str(), host, ":");
    let c = concat2(b.as_str(), p.as_str());
    concat2(c.as_str(), "\r\nConnection: close\r\nAccept: application/json\r\n\r\n")
}

} // verus!
