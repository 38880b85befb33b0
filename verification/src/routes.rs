//! The gateway's request decisions. A request for `/mcp/{server}/{path}` is
//! admitted (or answered at once), then forwarded by the caller, whose outcome
//! is turned into the response status and the log record.

use crate::config::{sealed_server, server_named, Config, ServerConfig};
use crate::logger::LogEntry;
use crate::proxy::{
    error_body, json_error_body, ErrorReply, STATUS_BAD_REQUEST, STATUS_NOT_FOUND,
    STATUS_SERVICE_UNAVAILABLE,
};
use crate::rate_limit::{bucket_key, ceil_div, limiter_check, LimiterState, RateLimitResult, RateLimiter, NANOS_PER_SEC};
use crate::text::{decimal, decimal_text, push_char, split_once, split_once_char, trim, trim_whitespace};
use crate::vault::{unsealed_text, VaultError};
use vstd::prelude::*;

verus! {

/// The body of the health endpoint.
pub const HEALTH_BODY: &'static str = "{\"status\":\"ok\",\"version\":\"0.1.0\"}";

/// The client address used when none is known.
pub const UNKNOWN_CLIENT: &'static str = "unknown";

/// The header that carries a server's credential when it names none.
pub const DEFAULT_AUTH_HEADER: &'static str = "Authorization";

/// The message when the path names no server.
pub const MISSING_SERVER: &'static str = "missing server name";

/// The message when no server has the requested name.
pub const SERVER_NOT_FOUND: &'static str = "server not found";

/// The message when the requested server is disabled.
pub const SERVER_DISABLED: &'static str = "server disabled";

/// The message of a refusal by the rate limiter.
pub const RATE_LIMITED: &'static str = "rate limit exceeded";

/// The server name and the upstream path of the part of the request path after
/// `/mcp/`: split at the first `/`, which stays at the front of the path; the
/// path is `/` when there is no `/`.
pub open spec fn route_target(rest: Seq<char>) -> (Seq<char>, Seq<char>) {
    let (name, after) = split_once(rest, '/');
    match after {
        Some(path) => (name, seq!['/'] + path),
        None => (name, seq!['/']),
    }
}

/// The server name never holds `/` and the upstream path always starts with
/// one; when the request path holds a `/`, name and path put back together
/// give it again, and otherwise the name is all of it and the path is `/`.
pub proof fn lemma_route_target(rest: Seq<char>)
    ensures
        ({
            let (name, path) = route_target(rest);
            &&& !name.contains('/')
            &&& path.len() >= 1 && path[0] == '/'
            &&& rest.contains('/') ==> name + path == rest
            &&& !rest.contains('/') ==> name == rest && path == seq!['/']
        }),
{
    let i = crate::text::first_match(rest, crate::text::is_char('/'));
    crate::text::lemma_first_match(rest, crate::text::is_char('/'));
    let (name, path) = route_target(rest);
    if i < rest.len() {
        assert(name == rest.take(i));
        assert(!name.contains('/')) by {
            if name.contains('/') {
                let k = choose|k: int| 0 <= k < name.len() && name[k] == '/';
                assert(rest[k] == '/');
            }
        }
        assert(name + path == rest);
    } else {
        assert(!rest.contains('/')) by {
            if rest.contains('/') {
                let k = choose|k: int| 0 <= k < rest.len() && rest[k] == '/';
                assert(!crate::text::is_char('/')(rest[k]));
            }
        }
    }
}

/// Splits the part of the request path after `/mcp/` into server name and
/// upstream path.
pub fn split_route(rest: &str) -> (r: (String, String))
    ensures
        (r.0@, r.1@) == route_target(rest@),
{
    let (name, after) = split_once_char(rest, '/');
    let mut path = String::new();
    push_char(&mut path, '/');
    match after {
        Some(p) => path.append(p.as_str()),
        None => {},
    }
    (name, path)
}

/// The client's address: the first entry of `X-Forwarded-For`, trimmed, when
/// that header is present as text; else the peer's address; else `unknown`.
pub open spec fn client_address(forwarded_for: Option<Seq<char>>, peer: Option<Seq<char>>) -> Seq<char> {
    match forwarded_for {
        Some(h) => trim(split_once(h, ',').0),
        None => match peer {
            Some(p) => p,
            None => UNKNOWN_CLIENT@,
        },
    }
}

/// When `X-Forwarded-For` is present, the client's address is its first entry:
/// the header up to (not including) its first `,`, or all of it when it has
/// none, without surrounding white space. It never holds a `,`.
pub proof fn lemma_forwarded_client_is_first_entry(h: Seq<char>, peer: Option<Seq<char>>, i: int)
    requires
        0 <= i <= h.len(),
        forall|j: int| 0 <= j < i ==> h[j] != ',',
        i < h.len() ==> h[i] == ',',
    ensures
        client_address(Some(h), peer) == trim(h.take(i)),
        !client_address(Some(h), peer).contains(','),
{
    let p = crate::text::is_char(',');
    crate::text::lemma_first_match(h, p);
    let f = crate::text::first_match(h, p);
    assert(f == i) by {
        if f < i {
            assert(h[f] != ',');
        }
        if i < f {
            assert(!p(h[i]));
        }
    }
    if i == h.len() {
        assert(h.take(i) == h);
    }
    let x = h.take(i);
    crate::text::lemma_trim(x);
    let (a, e) = choose|a: int, e: int|
        {
            &&& 0 <= a <= e <= x.len()
            &&& #[trigger] x.subrange(a, e) == trim(x)
            &&& forall|j: int| 0 <= j < a ==> crate::text::is_unicode_whitespace(#[trigger] x[j])
            &&& forall|j: int| e <= j < x.len() ==> crate::text::is_unicode_whitespace(#[trigger] x[j])
        };
    assert(!trim(x).contains(',')) by {
        if trim(x).contains(',') {
            let k = choose|k: int| 0 <= k < trim(x).len() && trim(x)[k] == ',';
            assert(trim(x)[k] == x[a + k]);
            assert(x[a + k] == h[a + k]);
        }
    }
}

/// Without `X-Forwarded-For` the client's address is the peer's, and
/// `unknown` when there is no peer either.
pub proof fn lemma_unforwarded_client_is_peer(peer: Option<Seq<char>>)
    ensures
        peer matches Some(p) ==> client_address(None, peer) == p,
        peer is None ==> client_address(None, peer) == UNKNOWN_CLIENT@,
{
}

/// Decides the client's address.
pub fn client_ip(forwarded_for: Option<&str>, peer_ip: Option<String>) -> (r: String)
    ensures
        r@ == client_address(
            match forwarded_for {
                Some(h) => Some(h@),
                None => None,
            },
            match peer_ip {
                Some(p) => Some(p@),
                None => None,
            },
        ),
{
    match forwarded_for {
        Some(h) => {
            let (first, _) = split_once_char(h, ',');
            trim_whitespace(first.as_str())
        },
        None => match peer_ip {
            Some(p) => p,
            None => UNKNOWN_CLIENT.to_owned(),
        },
    }
}

/// Where an admitted request goes: the server's name and URL, the upstream
/// path, and the header name and sealed key of its credential, if any.
#[derive(Debug, Clone, PartialEq, Eq)]
pub struct ForwardPlan {
    pub server_name: String,
    pub sub_path: String,
    pub upstream: String,
    pub auth: Option<(String, String)>,
}

/// The decision on a request before anything is sent upstream.
#[derive(Debug, Clone, PartialEq, Eq)]
pub enum Admission {
    /// Answer at once with this error.
    Reject(ErrorReply),
    /// Answer 429; the client may retry after this wait.
    Throttle { retry_after_nanos: Option<u64> },
    /// Forward upstream.
    Forward(ForwardPlan),
}

/// The header that carries server `s`'s credential.
pub open spec fn auth_header_of(s: ServerConfig) -> Seq<char> {
    match s.auth_header {
        Some(h) => h@,
        None => DEFAULT_AUTH_HEADER@,
    }
}

/// `r` rejects with `status` and `message`.
pub open spec fn rejects(r: Admission, status: u16, message: Seq<char>) -> bool {
    r matches Admission::Reject(e) && e.status == status && e.message@ == message
}

/// `p` forwards to server `s` under `name` with upstream path `path`.
pub open spec fn plans_forward(p: ForwardPlan, s: ServerConfig, name: Seq<char>, path: Seq<char>) -> bool {
    &&& p.server_name@ == name
    &&& p.sub_path@ == path
    &&& p.upstream == s.url
    &&& match s.api_key {
        None => p.auth is None,
        Some(k) => p.auth matches Some((h, sealed)) && h@ == auth_header_of(s) && sealed == k,
    }
}

/// The decision on the request for `rest` from `client`, with the limiter
/// going from `before` to `after`: no server name is a 400, an unknown server
/// a 404, a disabled one a 503, all without touching the limiter; else the
/// limiter is asked at `now` and a refusal is a 429, an allowance a forward.
pub open spec fn admitted(
    servers: Seq<ServerConfig>,
    rest: Seq<char>,
    client: Seq<char>,
    before: LimiterState,
    after: LimiterState,
    now: u128,
    r: Admission,
) -> bool {
    let (name, path) = route_target(rest);
    if name.len() == 0 {
        after == before && rejects(r, STATUS_BAD_REQUEST, MISSING_SERVER@)
    } else {
        match server_named(servers, name) {
            None => after == before && rejects(r, STATUS_NOT_FOUND, SERVER_NOT_FOUND@),
            Some(s) => if !s.enabled {
                after == before && rejects(r, STATUS_SERVICE_UNAVAILABLE, SERVER_DISABLED@)
            } else {
                let (next, answer) = limiter_check(before, bucket_key(client, name), now);
                &&& after == next
                &&& match answer {
                    RateLimitResult::Denied { retry_after_nanos } => r == Admission::Throttle {
                        retry_after_nanos,
                    },
                    RateLimitResult::Allowed => r matches Admission::Forward(p) && plans_forward(
                        p,
                        s,
                        name,
                        path,
                    ),
                }
            },
        }
    }
}

/// A server whose plaintext API key was sealed at startup by a vault with key
/// `key` gets, on every forwarded request, a credential that unseals under
/// that key to the configured plaintext, in the configured header.
pub proof fn lemma_forwarded_credential_unseals_to_configured_key(
    key: Seq<u8>,
    configured: ServerConfig,
    sealed: ServerConfig,
    plan: ForwardPlan,
    name: Seq<char>,
    path: Seq<char>,
)
    requires
        sealed_server(key, configured, sealed),
        plans_forward(plan, sealed, name, path),
    ensures
        match configured.api_key {
            None => plan.auth is None,
            Some(plain) => plan.auth matches Some((h, k)) && h@ == auth_header_of(configured)
                && unsealed_text(key, k@) == Ok::<Seq<char>, VaultError>(plain@),
        },
{
}

/// The plan for forwarding to `s`.
fn forward_plan(s: &ServerConfig, name: String, path: String) -> (p: ForwardPlan)
    ensures
        plans_forward(p, *s, name@, path@),
{
    let auth = match &s.api_key {
        None => None,
        Some(k) => {
            let header = match &s.auth_header {
                Some(h) => h.clone(),
                None => DEFAULT_AUTH_HEADER.to_owned(),
            };
            Some((header, k.clone()))
        },
    };
    ForwardPlan { server_name: name, sub_path: path, upstream: s.url.clone(), auth }
}

/// An error reply.
fn reply(status: u16, message: &str) -> (r: Admission)
    ensures
        rejects(r, status, message@),
{
    Admission::Reject(ErrorReply { status, message: message.to_owned() })
}

/// A request for a server that is configured but disabled is answered 503
/// `server disabled`, and the limiter is left exactly as it was, whatever it
/// would have answered.
pub proof fn lemma_disabled_server_is_503_untouched(
    servers: Seq<ServerConfig>,
    rest: Seq<char>,
    client: Seq<char>,
    before: LimiterState,
    after: LimiterState,
    now: u128,
    r: Admission,
    s: ServerConfig,
)
    requires
        admitted(servers, rest, client, before, after, now, r),
        route_target(rest).0.len() > 0,
        server_named(servers, route_target(rest).0) == Some(s),
        !s.enabled,
    ensures
        after == before,
        rejects(r, STATUS_SERVICE_UNAVAILABLE, SERVER_DISABLED@),
{
}

/// Whenever a request is rejected (400, 404 or 503), the limiter is left
/// exactly as it was: a rejected request never takes a token.
pub proof fn lemma_rejection_takes_no_token(
    servers: Seq<ServerConfig>,
    rest: Seq<char>,
    client: Seq<char>,
    before: LimiterState,
    after: LimiterState,
    now: u128,
    r: Admission,
)
    requires
        admitted(servers, rest, client, before, after, now, r),
        r is Reject,
    ensures
        after == before,
{
}

/// A request is forwarded only to a configured server that is enabled, under
/// the name the path gives, to that server's URL.
pub proof fn lemma_forward_only_to_enabled_server(
    servers: Seq<ServerConfig>,
    rest: Seq<char>,
    client: Seq<char>,
    before: LimiterState,
    after: LimiterState,
    now: u128,
    p: ForwardPlan,
)
    requires
        admitted(servers, rest, client, before, after, now, Admission::Forward(p)),
    ensures
        exists|s: ServerConfig|
            {
                &&& servers.contains(s)
                &&& s.enabled
                &&& s.name@ == route_target(rest).0
                &&& p.server_name@ == s.name@
                &&& p.upstream == s.url
            },
{
    let name = route_target(rest).0;
    crate::config::lemma_server_named(servers, name);
    let s = server_named(servers, name)->0;
    assert(servers.contains(s));
}

/// Decides on the request for `rest` (the path after `/mcp/`) from
/// `client_ip`, asking the limiter at `now` nanoseconds on its clock.
pub fn admit_request_at(config: &Config, limiter: &mut RateLimiter, rest: &str, client_ip: &str, now: u128) -> (r: Admission)
    ensures
        old(limiter).wf() ==> final(limiter).wf(),
        final(limiter).latest_reading() == old(limiter).latest_reading(),
        admitted(config.servers@, rest@, client_ip@, old(limiter)@, final(limiter)@, now, r),
{
    let (name, path) = split_route(rest);
    if name.as_str().is_empty() {
        return reply(STATUS_BAD_REQUEST, MISSING_SERVER);
    }
    match config.find_server(name.as_str()) {
        None => reply(STATUS_NOT_FOUND, SERVER_NOT_FOUND),
        Some(s) => {
            if !s.enabled {
                return reply(STATUS_SERVICE_UNAVAILABLE, SERVER_DISABLED);
            }
            match limiter.check_at(client_ip, name.as_str(), now) {
                RateLimitResult::Denied { retry_after_nanos } => Admission::Throttle { retry_after_nanos },
                RateLimitResult::Allowed => Admission::Forward(forward_plan(s, name, path)),
            }
        },
    }
}

/// Decides on the request for `rest` from `client_ip`, asking the limiter
/// now: as `admit_request_at` at a clock reading no earlier than the last.
pub fn admit_request(config: &Config, limiter: &mut RateLimiter, rest: &str, client_ip: &str) -> (r: Admission)
    ensures
        old(limiter).wf() ==> final(limiter).wf(),
        exists|now: u128|
            {
                &&& now >= old(limiter).latest_reading()
                &&& final(limiter).latest_reading() == now
                &&& admitted(config.servers@, rest@, client_ip@, old(limiter)@, final(limiter)@, now, r)
            },
{
    let now = limiter.clock_reading();
    admit_request_at(config, limiter, rest, client_ip, now)
}

/// The seconds a refused client is told to wait (the `Retry-After` header):
/// the wait rounded up to whole seconds, or `u64::MAX` when it never ends.
pub open spec fn retry_after_secs(retry_after_nanos: Option<u64>) -> u64 {
    match retry_after_nanos {
        Some(ns) => ceil_div(ns as int, NANOS_PER_SEC as int) as u64,
        None => u64::MAX,
    }
}

/// The `Retry-After` header value of a refusal.
pub fn retry_after_header(retry_after_nanos: Option<u64>) -> (r: String)
    ensures
        r@ == decimal(retry_after_secs(retry_after_nanos) as nat),
{
    let secs: u64 = match retry_after_nanos {
        Some(ns) => {
            if ns % NANOS_PER_SEC == 0 {
                ns / NANOS_PER_SEC
            } else {
                ns / NANOS_PER_SEC + 1
            }
        },
        None => u64::MAX,
    };
    decimal_text(secs)
}

/// The response to a forwarded request and its log record.
#[derive(Debug, Clone, PartialEq, Eq)]
pub struct Completion {
    /// The response status.
    pub status: u16,
    /// The gateway's own JSON body, or `None` to pass the upstream's through.
    pub body: Option<String>,
    /// The record to log.
    pub entry: LogEntry,
}

/// Finishes a forwarded request. `outcome` is the status of the response
/// obtained (from upstream, or made by the proxy), or the message of a failed
/// upstream connection, which becomes a 503 with that message; either way the
/// record names the plan's server and path, the client, method, id, time and
/// latency.
pub fn finish(
    plan: ForwardPlan,
    client_ip: String,
    method: String,
    id: String,
    ts: String,
    latency_ms: i64,
    outcome: Result<u16, String>,
) -> (r: Completion)
    ensures
        r.entry.id == id,
        r.entry.ts == ts,
        r.entry.server_name == plan.server_name,
        r.entry.client_ip == client_ip,
        r.entry.method == method,
        r.entry.path == plan.sub_path,
        r.entry.latency_ms == Some(latency_ms),
        match outcome {
            Ok(code) => {
                &&& r.status == code
                &&& r.body is None
                &&& r.entry.status == Some(code as i64)
                &&& r.entry.error is None
            },
            Err(message) => {
                &&& r.status == STATUS_SERVICE_UNAVAILABLE
                &&& r.body matches Some(b) && b@ == error_body(message@)
                &&& r.entry.status is None
                &&& r.entry.error == Some(message)
            },
        },
{
    let (status, body, logged_status, error) = match outcome {
        Ok(code) => (code, None, Some(code as i64), None),
        Err(message) => {
            let body = json_error_body(message.as_str());
            (STATUS_SERVICE_UNAVAILABLE, Some(body), None, Some(message))
        },
    };
    Completion {
        status,
        body,
        entry: LogEntry {
            id,
            ts,
            server_name: plan.server_name,
            client_ip,
            method,
            path: plan.sub_path,
            status: logged_status,
            latency_ms: Some(latency_ms),
            error,
        },
    }
}

} // verus!
