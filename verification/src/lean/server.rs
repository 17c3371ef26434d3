//! The decisions of a Lean server connection: its lifecycle states, the
//! numbering and bookkeeping of requests, what each response or timeout
//! comes to, the counters, the LSP-style messages and their framing.
//!
//! The process, its pipes and the waiting belong to the caller, which
//! reports each event here and performs the step it is told.

use vstd::prelude::*;
use vstd::string::StringSliceAdditionalSpecFns;
use std::collections::HashMap;
use std::path::PathBuf;
use std::time::{Duration, Instant};
use dashmap::DashMap;
use serde_json::Value as JsonValue;
use crate::kernel::show::{decimal, decimal_string};
use crate::lean::error::{LeanError, error_text};
use crate::optimize::{instant_now, instant_elapsed};

verus! {

// ---------------------------------------------------------------------
// Outside types and calls
// ---------------------------------------------------------------------

#[verifier::external_type_specification]
#[verifier::external_body]
pub struct ExJsonValue(JsonValue);

#[verifier::external_type_specification]
#[verifier::external_body]
pub struct ExJsonError(serde_json::Error);

#[verifier::external_type_specification]
#[verifier::external_body]
pub struct ExIoError(std::io::Error);

#[verifier::external_type_specification]
#[verifier::external_body]
pub struct ExPathBuf(PathBuf);

/// `std::path::PathBuf::from` a string; nothing is stated of the path.
#[verifier::external_body]
pub(crate) fn path_from(s: &str) -> (r: PathBuf) {
    PathBuf::from(s)
}

/// `std::time::Duration::from_secs`; the duration is opaque here.
#[verifier::external_body]
pub(crate) fn duration_from_secs(secs: u64) -> (r: Duration) {
    Duration::from_secs(secs)
}

/// The text `std::io::Error` displays; nothing is stated of it.
#[verifier::external_body]
pub(crate) fn io_error_text(e: &std::io::Error) -> (r: String) {
    format!("{}", e)
}

/// The text `serde_json::Error` displays; nothing is stated of it.
#[verifier::external_body]
fn json_error_text(e: &serde_json::Error) -> (r: String) {
    format!("{}", e)
}

// ---------------------------------------------------------------------
// States, errors, configuration
// ---------------------------------------------------------------------

/// The lifecycle state of the server process.
#[derive(Debug, Clone, Copy, PartialEq, Eq, Structural)]
pub enum ServerState {
    Stopped,
    Starting,
    Running,
    Stopping,
    Crashed,
}

/// What can go wrong with the server.
#[derive(Debug)]
pub enum ServerError {
    /// Lean server not running
    ServerNotRunning,
    /// Failed to start Lean server
    StartupFailed { reason: String },
    /// Communication timeout
    Timeout { duration_ms: u64 },
    /// Protocol error
    ProtocolError { message: String },
    /// Server crashed
    ServerCrashed { exit_code: Option<i32> },
    /// Invalid response
    InvalidResponse { response: String },
    /// Request failed
    RequestFailed { error: String },
    /// IO error
    Io(std::io::Error),
    /// JSON error
    Json(serde_json::Error),
    /// Lean error
    Lean(LeanError),
}

/// The text of an `i32` as `Debug` shows it.
pub open spec fn i32_text(x: i32) -> Seq<char> {
    if x < 0 {
        "-"@ + decimal((-x) as nat)
    } else {
        decimal(x as nat)
    }
}

/// The text of an optional exit code as `Debug` shows it.
pub open spec fn exit_code_text(code: Option<i32>) -> Seq<char> {
    match code {
        Some(c) => "Some("@ + i32_text(c) + ")"@,
        None => "None"@,
    }
}

/// The text a server error is shown as (the outside errors' own texts are
/// not stated).
pub open spec fn server_error_text(e: ServerError) -> Seq<char> {
    match e {
        ServerError::ServerNotRunning => "Lean server not running"@,
        ServerError::StartupFailed { reason } => "Failed to start Lean server: "@ + reason@,
        ServerError::Timeout { duration_ms } => "Communication timeout after "@ + decimal(duration_ms as nat) + "ms"@,
        ServerError::ProtocolError { message } => "Protocol error: "@ + message@,
        ServerError::ServerCrashed { exit_code } => "Server crashed: "@ + exit_code_text(exit_code),
        ServerError::InvalidResponse { response } => "Invalid response: "@ + response@,
        ServerError::RequestFailed { error } => "Request failed: "@ + error@,
        ServerError::Io(_) => "IO error: "@,
        ServerError::Json(_) => "JSON error: "@,
        ServerError::Lean(l) => "Lean error: "@ + error_text(l@),
    }
}

fn i32_string(x: i32) -> (r: String)
    ensures
        r@ == i32_text(x),
{
    if x < 0 {
        let magnitude: u64 = (-(x as i64)) as u64;
        let mut s = String::from_str("-");
        s.append(decimal_string(magnitude).as_str());
        proof { reveal_strlit("-"); }
        s
    } else {
        decimal_string(x as u64)
    }
}

impl ServerError {
    /// The text the error is shown as; for an outside error, the prefix
    /// followed by that error's own text
    pub fn to_display_string(&self) -> (r: String)
        ensures
            !(self is Io) && !(self is Json) ==> r@ == server_error_text(*self),
            (self is Io) || (self is Json) ==> server_error_text(*self).is_prefix_of(r@),
    {
        match self {
            ServerError::ServerNotRunning => {
                proof { reveal_strlit("Lean server not running"); }
                String::from_str("Lean server not running")
            },
            ServerError::StartupFailed { reason } => {
                let mut s = String::from_str("Failed to start Lean server: ");
                s.append(reason.as_str());
                proof { reveal_strlit("Failed to start Lean server: "); }
                s
            },
            ServerError::Timeout { duration_ms } => {
                let mut s = String::from_str("Communication timeout after ");
                s.append(decimal_string(*duration_ms).as_str());
                s.append("ms");
                proof {
                    reveal_strlit("Communication timeout after ");
                    reveal_strlit("ms");
                }
                s
            },
            ServerError::ProtocolError { message } => {
                let mut s = String::from_str("Protocol error: ");
                s.append(message.as_str());
                proof { reveal_strlit("Protocol error: "); }
                s
            },
            ServerError::ServerCrashed { exit_code } => {
                let mut s = String::from_str("Server crashed: ");
                match exit_code {
                    Some(c) => {
                        s.append("Some(");
                        s.append(i32_string(*c).as_str());
                        s.append(")");
                        proof {
                            reveal_strlit("Some(");
                            reveal_strlit(")");
                        }
                    },
                    None => {
                        s.append("None");
                        proof { reveal_strlit("None"); }
                    },
                }
                proof { reveal_strlit("Server crashed: "); }
                s
            },
            ServerError::InvalidResponse { response } => {
                let mut s = String::from_str("Invalid response: ");
                s.append(response.as_str());
                proof { reveal_strlit("Invalid response: "); }
                s
            },
            ServerError::RequestFailed { error } => {
                let mut s = String::from_str("Request failed: ");
                s.append(error.as_str());
                proof { reveal_strlit("Request failed: "); }
                s
            },
            ServerError::Io(e) => {
                let mut s = String::from_str("IO error: ");
                s.append(io_error_text(e).as_str());
                proof { reveal_strlit("IO error: "); }
                s
            },
            ServerError::Json(e) => {
                let mut s = String::from_str("JSON error: ");
                s.append(json_error_text(e).as_str());
                proof { reveal_strlit("JSON error: "); }
                s
            },
            ServerError::Lean(l) => {
                let mut s = String::from_str("Lean error: ");
                s.append(l.to_display_string().as_str());
                proof { reveal_strlit("Lean error: "); }
                s
            },
        }
    }
}

/// Configuration of the server process.
pub struct LeanServerConfig {
    /// Path to the Lean executable
    pub lean_executable: PathBuf,
    /// Working directory of the process
    pub working_dir: PathBuf,
    /// Additional command line arguments
    pub args: Vec<String>,
    /// Environment variables
    pub env: HashMap<String, String>,
    /// Request timeout
    pub request_timeout: Duration,
    /// Startup timeout
    pub startup_timeout: Duration,
    /// Most requests in flight at once
    pub max_concurrent_requests: usize,
    /// Whether to restart after a failed heartbeat
    pub auto_restart: bool,
    /// Most restarts
    pub max_restart_attempts: u32,
    /// Heartbeat interval
    pub heartbeat_interval: Duration,
}

impl Default for LeanServerConfig {
    /// `lean --server` in the current directory, 10 requests at once,
    /// restarting up to 3 times; timeouts of 30 s (requests), 10 s
    /// (startup) and a 30 s heartbeat
    fn default() -> (r: Self)
        ensures
            r.args@.len() == 1,
            r.args@[0]@ == "--server"@,
            r.env@ == Map::<String, String>::empty(),
            r.max_concurrent_requests == 10,
            r.auto_restart,
            r.max_restart_attempts == 3,
    {
        let mut args: Vec<String> = Vec::new();
        args.push(String::from_str("--server"));
        proof { reveal_strlit("--server"); }
        LeanServerConfig {
            lean_executable: path_from("lean"),
            working_dir: path_from("."),
            args,
            env: HashMap::new(),
            request_timeout: duration_from_secs(30),
            startup_timeout: duration_from_secs(10),
            max_concurrent_requests: 10,
            auto_restart: true,
            max_restart_attempts: 3,
            heartbeat_interval: duration_from_secs(30),
        }
    }
}

// ---------------------------------------------------------------------
// Counters
// ---------------------------------------------------------------------

/// Counters of the server connection.
pub struct ServerMetrics {
    pub requests_sent: u64,
    pub responses_received: u64,
    pub errors_received: u64,
    pub timeouts: u64,
    pub server_restarts: u32,
    pub avg_response_time_ms: u64,
    pub uptime_start: Option<Instant>,
}

/// The running average after one more sample: the old average weighted by
/// the old count, plus the sample, over the new count, in wrapping 64-bit
/// arithmetic.
pub open spec fn next_average(old_avg: u64, old_count: u64, sample: u64) -> u64 {
    old_avg.wrapping_mul(old_count).wrapping_add(sample) / (old_count + 1) as u64
}

/// The counters after one error response: the error count goes up by one
/// (wrapping), the rest stays.
pub open spec fn metrics_after_error(before: ServerMetrics, after: ServerMetrics) -> bool {
    &&& after.errors_received == before.errors_received.wrapping_add(1)
    &&& after.requests_sent == before.requests_sent
    &&& after.responses_received == before.responses_received
    &&& after.timeouts == before.timeouts
    &&& after.server_restarts == before.server_restarts
    &&& after.avg_response_time_ms == before.avg_response_time_ms
    &&& after.uptime_start == before.uptime_start
}

/// The counters after one response that took `ms` milliseconds: the
/// response count goes up by one and the average takes the sample in, the
/// rest stays.
pub open spec fn metrics_after_response(before: ServerMetrics, after: ServerMetrics, ms: u64) -> bool {
    &&& after.responses_received == before.responses_received + 1
    &&& after.avg_response_time_ms == next_average(before.avg_response_time_ms, before.responses_received, ms)
    &&& after.requests_sent == before.requests_sent
    &&& after.errors_received == before.errors_received
    &&& after.timeouts == before.timeouts
    &&& after.server_restarts == before.server_restarts
    &&& after.uptime_start == before.uptime_start
}

impl Default for ServerMetrics {
    /// All counters zero, no start time
    fn default() -> (r: Self)
        ensures
            r.requests_sent == 0,
            r.responses_received == 0,
            r.errors_received == 0,
            r.timeouts == 0,
            r.server_restarts == 0,
            r.avg_response_time_ms == 0,
            r.uptime_start is None,
    {
        ServerMetrics {
            requests_sent: 0,
            responses_received: 0,
            errors_received: 0,
            timeouts: 0,
            server_restarts: 0,
            avg_response_time_ms: 0,
            uptime_start: None,
        }
    }
}

impl ServerMetrics {
    /// Count a request sent
    pub fn record_request(&mut self)
        ensures
            final(self).requests_sent == old(self).requests_sent.wrapping_add(1),
            final(self).responses_received == old(self).responses_received,
            final(self).errors_received == old(self).errors_received,
            final(self).timeouts == old(self).timeouts,
            final(self).server_restarts == old(self).server_restarts,
            final(self).avg_response_time_ms == old(self).avg_response_time_ms,
            final(self).uptime_start == old(self).uptime_start,
    {
        self.requests_sent = self.requests_sent.wrapping_add(1);
    }

    /// Count a response that took `millis` milliseconds and fold it into
    /// the average response time
    pub fn record_response(&mut self, millis: u64)
        requires
            old(self).responses_received < u64::MAX,
        ensures
            final(self).responses_received == old(self).responses_received + 1,
            final(self).avg_response_time_ms
                == next_average(old(self).avg_response_time_ms, old(self).responses_received, millis),
            final(self).requests_sent == old(self).requests_sent,
            final(self).errors_received == old(self).errors_received,
            final(self).timeouts == old(self).timeouts,
            final(self).server_restarts == old(self).server_restarts,
            final(self).uptime_start == old(self).uptime_start,
    {
        let old_count = self.responses_received;
        self.responses_received = old_count + 1;
        let responses = self.responses_received;
        let old_avg = self.avg_response_time_ms;
        let new_avg = old_avg.wrapping_mul(responses - 1).wrapping_add(millis) / responses;
        self.avg_response_time_ms = new_avg;
    }

    /// Count an error response
    pub fn record_error(&mut self)
        ensures
            final(self).errors_received == old(self).errors_received.wrapping_add(1),
            final(self).requests_sent == old(self).requests_sent,
            final(self).responses_received == old(self).responses_received,
            final(self).timeouts == old(self).timeouts,
            final(self).server_restarts == old(self).server_restarts,
            final(self).avg_response_time_ms == old(self).avg_response_time_ms,
            final(self).uptime_start == old(self).uptime_start,
    {
        self.errors_received = self.errors_received.wrapping_add(1);
    }

    /// Count a timed-out request
    pub fn record_timeout(&mut self)
        ensures
            final(self).timeouts == old(self).timeouts.wrapping_add(1),
            final(self).requests_sent == old(self).requests_sent,
            final(self).responses_received == old(self).responses_received,
            final(self).errors_received == old(self).errors_received,
            final(self).server_restarts == old(self).server_restarts,
            final(self).avg_response_time_ms == old(self).avg_response_time_ms,
            final(self).uptime_start == old(self).uptime_start,
    {
        self.timeouts = self.timeouts.wrapping_add(1);
    }

    /// Count a (re)start and take the current time as the start of uptime
    pub fn record_restart(&mut self)
        ensures
            final(self).server_restarts == old(self).server_restarts.wrapping_add(1),
            final(self).uptime_start is Some,
            final(self).requests_sent == old(self).requests_sent,
            final(self).responses_received == old(self).responses_received,
            final(self).errors_received == old(self).errors_received,
            final(self).timeouts == old(self).timeouts,
            final(self).avg_response_time_ms == old(self).avg_response_time_ms,
    {
        self.server_restarts = self.server_restarts.wrapping_add(1);
        self.uptime_start = Some(instant_now());
    }

    /// The time since the last (re)start, if there was one
    pub fn uptime(&self) -> (r: Option<Duration>)
        ensures
            r is Some <==> self.uptime_start is Some,
    {
        match &self.uptime_start {
            Some(start) => Some(instant_elapsed(start)),
            None => None,
        }
    }
}

// ---------------------------------------------------------------------
// Messages
// ---------------------------------------------------------------------

/// An LSP-style error.
pub struct LspError {
    pub code: i32,
    pub message: String,
    pub data: Option<JsonValue>,
}

/// An LSP-style message: a request, a response, an error response or a
/// notification.
pub struct LspMessage {
    pub id: Option<u64>,
    pub method: Option<String>,
    pub params: Option<JsonValue>,
    pub result: Option<JsonValue>,
    pub error: Option<LspError>,
    pub jsonrpc: String,
}

impl LspMessage {
    /// A request with an id, a method and parameters
    pub fn request(id: u64, method: String, params: JsonValue) -> (r: Self)
        ensures
            r.id == Some(id),
            r.method == Some(method),
            r.params == Some(params),
            r.result is None,
            r.error is None,
            r.jsonrpc@ == "2.0"@,
    {
        proof { reveal_strlit("2.0"); }
        LspMessage { id: Some(id), method: Some(method), params: Some(params), result: None, error: None, jsonrpc: String::from_str("2.0") }
    }

    /// A response with an id and a result
    pub fn response(id: u64, result: JsonValue) -> (r: Self)
        ensures
            r.id == Some(id),
            r.method is None,
            r.params is None,
            r.result == Some(result),
            r.error is None,
            r.jsonrpc@ == "2.0"@,
    {
        proof { reveal_strlit("2.0"); }
        LspMessage { id: Some(id), method: None, params: None, result: Some(result), error: None, jsonrpc: String::from_str("2.0") }
    }

    /// An error response with an id
    pub fn error_response(id: u64, error: LspError) -> (r: Self)
        ensures
            r.id == Some(id),
            r.method is None,
            r.params is None,
            r.result is None,
            r.error == Some(error),
            r.jsonrpc@ == "2.0"@,
    {
        proof { reveal_strlit("2.0"); }
        LspMessage { id: Some(id), method: None, params: None, result: None, error: Some(error), jsonrpc: String::from_str("2.0") }
    }

    /// A notification: a method and parameters, no id
    pub fn notification(method: String, params: JsonValue) -> (r: Self)
        ensures
            r.id is None,
            r.method == Some(method),
            r.params == Some(params),
            r.result is None,
            r.error is None,
            r.jsonrpc@ == "2.0"@,
    {
        proof { reveal_strlit("2.0"); }
        LspMessage { id: None, method: Some(method), params: Some(params), result: None, error: None, jsonrpc: String::from_str("2.0") }
    }
}

/// The framed text of a message: a `Content-Length` header with the
/// body's length in bytes, a blank line, then the body.
pub open spec fn framed(body: Seq<char>, byte_len: nat) -> Seq<char> {
    "Content-Length: "@ + decimal(byte_len) + "\r\n\r\n"@ + body
}

/// Frame a serialized message for the server's input
pub fn frame_message(json: &str) -> (r: String)
    ensures
        r@ == framed(json@, json.spec_bytes().len()),
{
    let content_length = json.as_bytes().len();
    let mut s = String::from_str("Content-Length: ");
    s.append(decimal_string(content_length as u64).as_str());
    s.append("\r\n\r\n");
    s.append(json);
    proof {
        reveal_strlit("Content-Length: ");
        reveal_strlit("\r\n\r\n");
    }
    s
}

/// What the server says of itself.
#[derive(Debug, Clone)]
pub struct ServerInfo {
    pub version: String,
    pub commit: Option<String>,
    pub build_date: Option<String>,
}

// ---------------------------------------------------------------------
// Requests in flight
// ---------------------------------------------------------------------

/// A request waiting for its response: when it was sent and its method.
pub struct PendingRequest {
    pub created_at: Instant,
    pub method: String,
}

/// The methods of the requests a map of pending requests holds, by id.
pub uninterp spec fn pending_methods(m: DashMap<u64, PendingRequest, std::collections::hash_map::RandomState>) -> Map<u64, Seq<char>>;

/// No request pending.
pub open spec fn no_pending() -> Map<u64, Seq<char>> {
    Map::empty()
}

/// `dashmap::DashMap::new`: an empty map.
#[verifier::external_body]
fn pending_new() -> (r: DashMap<u64, PendingRequest, std::collections::hash_map::RandomState>)
    ensures
        pending_methods(r) == no_pending(),
{
    DashMap::new()
}

/// `dashmap::DashMap::insert`: `id` then holds `request`.
#[verifier::external_body]
fn pending_insert(
    m: &mut DashMap<u64, PendingRequest, std::collections::hash_map::RandomState>,
    id: u64,
    request: PendingRequest,
)
    ensures
        pending_methods(*final(m)) == pending_methods(*old(m)).insert(id, request.method@),
{
    m.insert(id, request);
}

/// `dashmap::DashMap::remove`: the request held for `id`, taken out.
#[verifier::external_body]
fn pending_remove(
    m: &mut DashMap<u64, PendingRequest, std::collections::hash_map::RandomState>,
    id: u64,
) -> (r: Option<PendingRequest>)
    ensures
        pending_methods(*final(m)) == pending_methods(*old(m)).remove(id),
        pending_methods(*old(m)).contains_key(id) <==> r is Some,
        r matches Some(p) ==> p.method@ == pending_methods(*old(m))[id],
{
    match m.remove(&id) {
        Some((_, request)) => Some(request),
        None => None,
    }
}

/// The ids a map of pending requests holds, each once, in the map's own
/// order (which depends on its hashing).
#[verifier::external_body]
fn pending_ids(m: &DashMap<u64, PendingRequest, std::collections::hash_map::RandomState>) -> (r: Vec<u64>)
    ensures
        r@.no_duplicates(),
        forall|id: u64| r@.contains(id) <==> pending_methods(*m).contains_key(id),
{
    m.iter().map(|entry| *entry.key()).collect()
}

/// `std::time::Duration::as_millis`; the value is opaque here.
#[verifier::external_body]
pub(crate) fn duration_as_millis(d: &Duration) -> (r: u128) {
    d.as_millis()
}

// ---------------------------------------------------------------------
// The lifecycle and the requests
// ---------------------------------------------------------------------

/// The state of a server connection: lifecycle, restart count, request
/// numbering, the requests in flight and the counters.
pub struct ServerControl {
    state: ServerState,
    restart_count: u32,
    max_restart_attempts: u32,
    auto_restart: bool,
    request_id: u64,
    pending: DashMap<u64, PendingRequest, std::collections::hash_map::RandomState>,
    metrics: ServerMetrics,
}

/// What a response comes to for the request it answers.
pub open spec fn response_outcome_ok(message: LspMessage, r: Result<JsonValue, ServerError>) -> bool {
    match message.error {
        Some(e) => r matches Err(ServerError::RequestFailed { error }) && error@ == e.message@,
        None => match message.result {
            Some(v) => r == Ok::<JsonValue, ServerError>(v),
            None => r matches Err(ServerError::InvalidResponse { response })
                && response@ == "No result or error in response"@,
        },
    }
}

impl ServerControl {
    /// The lifecycle state.
    pub closed spec fn spec_state(&self) -> ServerState {
        self.state
    }

    /// Restarts asked for so far.
    pub closed spec fn spec_restart_count(&self) -> u32 {
        self.restart_count
    }

    /// The most restarts allowed.
    pub closed spec fn spec_max_restarts(&self) -> u32 {
        self.max_restart_attempts
    }

    /// Whether a failed heartbeat restarts the server.
    pub closed spec fn spec_auto_restart(&self) -> bool {
        self.auto_restart
    }

    /// The id the next request gets.
    pub closed spec fn spec_next_id(&self) -> u64 {
        self.request_id
    }

    /// The requests in flight: their methods, by id.
    pub closed spec fn spec_pending(&self) -> Map<u64, Seq<char>> {
        pending_methods(self.pending)
    }

    /// The counters.
    pub closed spec fn spec_metrics(&self) -> ServerMetrics {
        self.metrics
    }

    /// A stopped connection with the configuration's restart policy; the
    /// first request will be numbered 1
    pub fn new(config: &LeanServerConfig) -> (r: Self)
        ensures
            r.spec_state() == ServerState::Stopped,
            r.spec_restart_count() == 0,
            r.spec_max_restarts() == config.max_restart_attempts,
            r.spec_auto_restart() == config.auto_restart,
            r.spec_next_id() == 1,
            r.spec_pending() == Map::<u64, Seq<char>>::empty(),
            r.spec_metrics().requests_sent == 0,
            r.spec_metrics().responses_received == 0,
            r.spec_metrics().errors_received == 0,
            r.spec_metrics().timeouts == 0,
            r.spec_metrics().server_restarts == 0,
            r.spec_metrics().uptime_start is None,
    {
        ServerControl {
            state: ServerState::Stopped,
            restart_count: 0,
            max_restart_attempts: config.max_restart_attempts,
            auto_restart: config.auto_restart,
            request_id: 1,
            pending: pending_new(),
            metrics: ServerMetrics::default(),
        }
    }

    /// The lifecycle state
    pub fn state(&self) -> (r: ServerState)
        ensures
            r == self.spec_state(),
    {
        self.state
    }

    /// Whether the server is running
    pub fn is_running(&self) -> (r: bool)
        ensures
            r == (self.spec_state() == ServerState::Running),
    {
        self.state == ServerState::Running
    }

    /// The counters
    pub fn metrics(&self) -> (r: &ServerMetrics)
        ensures
            *r == self.spec_metrics(),
    {
        &self.metrics
    }

    /// Ask to start: a running server needs nothing (`false`); otherwise
    /// the state becomes `Starting` and the process is to be launched
    /// (`true`)
    pub fn begin_start(&mut self) -> (r: bool)
        ensures
            r == (old(self).spec_state() != ServerState::Running),
            r ==> final(self).spec_state() == ServerState::Starting,
            !r ==> final(self).spec_state() == old(self).spec_state(),
            final(self).spec_restart_count() == old(self).spec_restart_count(),
            final(self).spec_next_id() == old(self).spec_next_id(),
            final(self).spec_pending() == old(self).spec_pending(),
            final(self).spec_metrics() == old(self).spec_metrics(),
    {
        if self.state == ServerState::Running {
            false
        } else {
            self.state = ServerState::Starting;
            true
        }
    }

    /// The launched server answered: it is running, and the start is
    /// counted
    pub fn finish_start(&mut self)
        ensures
            final(self).spec_state() == ServerState::Running,
            final(self).spec_metrics().server_restarts == old(self).spec_metrics().server_restarts.wrapping_add(1),
            final(self).spec_metrics().uptime_start is Some,
            final(self).spec_metrics().requests_sent == old(self).spec_metrics().requests_sent,
            final(self).spec_metrics().responses_received == old(self).spec_metrics().responses_received,
            final(self).spec_metrics().errors_received == old(self).spec_metrics().errors_received,
            final(self).spec_metrics().timeouts == old(self).spec_metrics().timeouts,
            final(self).spec_restart_count() == old(self).spec_restart_count(),
            final(self).spec_next_id() == old(self).spec_next_id(),
            final(self).spec_pending() == old(self).spec_pending(),
    {
        self.state = ServerState::Running;
        self.metrics.record_restart();
    }

    /// Ask to stop: a stopped server needs nothing (`false`); otherwise the
    /// state becomes `Stopping` and the process is to be killed (`true`)
    pub fn begin_stop(&mut self) -> (r: bool)
        ensures
            r == (old(self).spec_state() != ServerState::Stopped),
            r ==> final(self).spec_state() == ServerState::Stopping,
            !r ==> final(self).spec_state() == old(self).spec_state(),
            final(self).spec_restart_count() == old(self).spec_restart_count(),
            final(self).spec_next_id() == old(self).spec_next_id(),
            final(self).spec_pending() == old(self).spec_pending(),
            final(self).spec_metrics() == old(self).spec_metrics(),
    {
        if self.state == ServerState::Stopped {
            false
        } else {
            self.state = ServerState::Stopping;
            true
        }
    }

    /// The process is gone: the server is stopped
    pub fn finish_stop(&mut self)
        ensures
            final(self).spec_state() == ServerState::Stopped,
            final(self).spec_restart_count() == old(self).spec_restart_count(),
            final(self).spec_next_id() == old(self).spec_next_id(),
            final(self).spec_pending() == old(self).spec_pending(),
            final(self).spec_metrics() == old(self).spec_metrics(),
    {
        self.state = ServerState::Stopped;
    }

    /// Ask to restart: the attempt is counted; once as many attempts as
    /// allowed were made before, it is refused
    pub fn begin_restart(&mut self) -> (r: Result<(), ServerError>)
        ensures
            final(self).spec_restart_count() == old(self).spec_restart_count().wrapping_add(1),
            old(self).spec_restart_count() >= old(self).spec_max_restarts() <==> r is Err,
            r matches Err(e) ==> (e matches ServerError::StartupFailed { reason }
                && reason@ == "Maximum restart attempts exceeded"@),
            final(self).spec_state() == old(self).spec_state(),
            final(self).spec_next_id() == old(self).spec_next_id(),
            final(self).spec_pending() == old(self).spec_pending(),
            final(self).spec_metrics() == old(self).spec_metrics(),
            final(self).spec_max_restarts() == old(self).spec_max_restarts(),
            final(self).spec_auto_restart() == old(self).spec_auto_restart(),
    {
        let restart_count = self.restart_count;
        self.restart_count = self.restart_count.wrapping_add(1);
        if restart_count >= self.max_restart_attempts {
            proof { reveal_strlit("Maximum restart attempts exceeded"); }
            return Err(ServerError::StartupFailed { reason: String::from_str("Maximum restart attempts exceeded") });
        }
        Ok(())
    }

    /// Register a request: refused unless the server is running; otherwise
    /// it gets the next id, which then advances, and waits as pending
    pub fn begin_request(&mut self, method: String) -> (r: Result<u64, ServerError>)
        ensures
            old(self).spec_state() != ServerState::Running ==> {
                &&& r matches Err(ServerError::ServerNotRunning)
                &&& final(self).spec_next_id() == old(self).spec_next_id()
                &&& final(self).spec_pending() == old(self).spec_pending()
            },
            old(self).spec_state() == ServerState::Running ==> {
                &&& r == Ok::<u64, ServerError>(old(self).spec_next_id())
                &&& final(self).spec_next_id() == old(self).spec_next_id().wrapping_add(1)
                &&& final(self).spec_pending() == old(self).spec_pending().insert(old(self).spec_next_id(), method@)
            },
            final(self).spec_state() == old(self).spec_state(),
            final(self).spec_restart_count() == old(self).spec_restart_count(),
            final(self).spec_metrics() == old(self).spec_metrics(),
    {
        if self.state != ServerState::Running {
            return Err(ServerError::ServerNotRunning);
        }
        let request_id = self.request_id;
        self.request_id = self.request_id.wrapping_add(1);
        let pending = PendingRequest { created_at: instant_now(), method };
        pending_insert(&mut self.pending, request_id, pending);
        Ok(request_id)
    }

    /// A request went out: it is counted
    pub fn request_sent(&mut self)
        ensures
            final(self).spec_metrics().requests_sent == old(self).spec_metrics().requests_sent.wrapping_add(1),
            final(self).spec_metrics().responses_received == old(self).spec_metrics().responses_received,
            final(self).spec_metrics().errors_received == old(self).spec_metrics().errors_received,
            final(self).spec_metrics().timeouts == old(self).spec_metrics().timeouts,
            final(self).spec_state() == old(self).spec_state(),
            final(self).spec_next_id() == old(self).spec_next_id(),
            final(self).spec_pending() == old(self).spec_pending(),
    {
        self.metrics.record_request();
    }

    /// No response will come for a request (its answer channel closed): it
    /// stops waiting, and the caller gets `ServerNotRunning`
    pub fn request_abandoned(&mut self, id: u64) -> (r: ServerError)
        ensures
            r is ServerNotRunning,
            final(self).spec_pending() == old(self).spec_pending().remove(id),
            final(self).spec_metrics() == old(self).spec_metrics(),
            final(self).spec_state() == old(self).spec_state(),
            final(self).spec_next_id() == old(self).spec_next_id(),
    {
        let _ = pending_remove(&mut self.pending, id);
        ServerError::ServerNotRunning
    }

    /// A request timed out after `timeout_ms`: it stops waiting, the
    /// timeout is counted, and the caller gets a `Timeout` error
    pub fn request_timed_out(&mut self, id: u64, timeout_ms: u64) -> (r: ServerError)
        ensures
            r == (ServerError::Timeout { duration_ms: timeout_ms }),
            final(self).spec_pending() == old(self).spec_pending().remove(id),
            final(self).spec_metrics().timeouts == old(self).spec_metrics().timeouts.wrapping_add(1),
            final(self).spec_metrics().requests_sent == old(self).spec_metrics().requests_sent,
            final(self).spec_metrics().responses_received == old(self).spec_metrics().responses_received,
            final(self).spec_metrics().errors_received == old(self).spec_metrics().errors_received,
            final(self).spec_state() == old(self).spec_state(),
            final(self).spec_next_id() == old(self).spec_next_id(),
    {
        let _ = pending_remove(&mut self.pending, id);
        self.metrics.record_timeout();
        ServerError::Timeout { duration_ms: timeout_ms }
    }

    /// A message came from the server. Where it answers a pending request,
    /// that request stops waiting and gets the message's error (counted),
    /// else its result (counted, with the time it took), else an invalid
    /// response error (counted); the answered id and outcome are returned.
    /// Other messages are dropped
    pub fn handle_response(&mut self, message: LspMessage) -> (r: Option<(u64, Result<JsonValue, ServerError>)>)
        requires
            old(self).spec_metrics().responses_received < u64::MAX,
        ensures
            final(self).spec_state() == old(self).spec_state(),
            final(self).spec_next_id() == old(self).spec_next_id(),
            match message.id {
                Some(id) => if old(self).spec_pending().contains_key(id) {
                    &&& r matches Some((rid, outcome)) && rid == id && response_outcome_ok(message, outcome)
                    &&& final(self).spec_pending() == old(self).spec_pending().remove(id)
                    &&& message.error is Some
                        ==> metrics_after_error(old(self).spec_metrics(), final(self).spec_metrics())
                    &&& message.error is None && message.result is Some
                        ==> exists|ms: u64| #[trigger] metrics_after_response(old(self).spec_metrics(), final(self).spec_metrics(), ms)
                    &&& message.error is None && message.result is None
                        ==> metrics_after_error(old(self).spec_metrics(), final(self).spec_metrics())
                } else {
                    &&& r is None
                    &&& final(self).spec_pending() == old(self).spec_pending()
                    &&& final(self).spec_metrics() == old(self).spec_metrics()
                },
                None => {
                    &&& r is None
                    &&& final(self).spec_pending() == old(self).spec_pending()
                    &&& final(self).spec_metrics() == old(self).spec_metrics()
                },
            },
    {
        let id = match message.id {
            Some(id) => id,
            None => return None,
        };
        let pending = match pending_remove(&mut self.pending, id) {
            Some(p) => p,
            None => return None,
        };
        let elapsed = instant_elapsed(&pending.created_at);
        let millis = duration_as_millis(&elapsed) as u64;
        let result = match message.error {
            Some(error) => {
                self.metrics.record_error();
                Err(ServerError::RequestFailed { error: error.message })
            },
            None => match message.result {
                Some(result) => {
                    self.metrics.record_response(millis);
                    assert(metrics_after_response(old(self).spec_metrics(), self.spec_metrics(), millis));
                    Ok(result)
                },
                None => {
                    self.metrics.record_error();
                    proof { reveal_strlit("No result or error in response"); }
                    Err(ServerError::InvalidResponse { response: String::from_str("No result or error in response") })
                },
            },
        };
        Some((id, result))
    }

    /// The server's output ended: it has crashed
    pub fn reader_closed(&mut self)
        ensures
            final(self).spec_state() == ServerState::Crashed,
            final(self).spec_pending() == old(self).spec_pending(),
            final(self).spec_metrics() == old(self).spec_metrics(),
            final(self).spec_next_id() == old(self).spec_next_id(),
    {
        self.state = ServerState::Crashed;
    }

    /// At a heartbeat tick: whether to ping (only a running server is)
    pub fn heartbeat_should_ping(&self) -> (r: bool)
        ensures
            r == (self.spec_state() == ServerState::Running),
    {
        self.state == ServerState::Running
    }

    /// After a heartbeat ping: whether to restart (a failed ping, with
    /// restarts enabled)
    pub fn heartbeat_should_restart(&self, ping_ok: bool) -> (r: bool)
        ensures
            r == (!ping_ok && self.spec_auto_restart()),
    {
        !ping_ok && self.auto_restart
    }

    /// Stop waiting for every pending request; their ids are returned, each
    /// once, for the caller to answer with a crash error
    pub fn clear_pending_requests(&mut self) -> (r: Vec<u64>)
        ensures
            r@.no_duplicates(),
            forall|id: u64| r@.contains(id) <==> old(self).spec_pending().contains_key(id),
            final(self).spec_pending() == no_pending(),
            final(self).spec_state() == old(self).spec_state(),
            final(self).spec_metrics() == old(self).spec_metrics(),
            final(self).spec_next_id() == old(self).spec_next_id(),
    {
        let ids = pending_ids(&self.pending);
        let mut i: usize = 0;
        while i < ids.len()
            invariant
                0 <= i <= ids@.len(),
                ids@.no_duplicates(),
                forall|id: u64| ids@.contains(id) <==> old(self).spec_pending().contains_key(id),
                self.spec_pending().submap_of(old(self).spec_pending()),
                forall|j: int| 0 <= j < i ==> !self.spec_pending().contains_key(#[trigger] ids@[j]),
                self.state == old(self).state,
                self.metrics == old(self).metrics,
                self.request_id == old(self).request_id,
            decreases ids@.len() - i,
        {
            let id = ids[i];
            let _ = pending_remove(&mut self.pending, id);
            i = i + 1;
        }
        proof {
            assert(self.spec_pending() =~= no_pending()) by {
                assert forall|k: u64| !self.spec_pending().contains_key(k) by {
                    if self.spec_pending().contains_key(k) {
                        assert(old(self).spec_pending().contains_key(k));
                        assert(ids@.contains(k));
                        let j = choose|j: int| 0 <= j < ids@.len() && ids@[j] == k;
                        assert(!self.spec_pending().contains_key(ids@[j]));
                    }
                }
            }
        }
        ids
    }
}

} // verus!
