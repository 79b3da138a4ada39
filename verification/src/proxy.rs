//! The authenticating reverse proxy's request logic: destination-path
//! resolution, Host validation, bearer authentication, the endpoint
//! denylist, upstream URL construction, header rewriting and the relay of
//! upstream outcomes to client-visible responses.
//!
//! Everything here is a pure decision on plain values; the embedding
//! application owns the listener and the outbound connection and consults
//! these functions for every request.

use vstd::prelude::*;

use crate::strings::{
    contains_spec, eq_ignore_ascii_case, index_of_first, index_of_first_exec, lemma_index_of_first,
    lower_seq, starts_with_spec, str_contains, str_eq, str_starts_with,
};

verus! {

/// Per-listener settings, fixed for the life of the proxy.
pub struct ProxyConfig {
    pub upstream: String,
    pub prefix: String,
    pub auth_token: String,
    pub trusted_hosts: Vec<String>,
    pub api_key: String,
}

/// Characters equal to `c` dropped from the end of the sequence.
pub open spec fn trim_end_char(s: Seq<char>, c: char) -> Seq<char>
    decreases s.len(),
{
    if s.len() > 0 && s.last() == c {
        trim_end_char(s.drop_last(), c)
    } else {
        s
    }
}

/// Characters equal to `c` dropped from the start of the sequence.
pub open spec fn trim_start_char(s: Seq<char>, c: char) -> Seq<char>
    decreases s.len(),
{
    if s.len() > 0 && s[0] == c {
        trim_start_char(s.drop_first(), c)
    } else {
        s
    }
}

fn trim_end_char_exec<'a>(s: &'a str, c: char) -> (r: &'a str)
    ensures
        r@ == trim_end_char(s@, c),
{
    let n = s.unicode_len();
    proof {
        assert(s@.subrange(0, n as int) =~= s@);
    }
    let mut j: usize = n;
    while j > 0 && s.get_char(j - 1) == c
        invariant
            j <= n,
            n == s@.len(),
            trim_end_char(s@, c) == trim_end_char(s@.subrange(0, j as int), c),
        decreases j,
    {
        proof {
            assert(s@.subrange(0, j as int).last() == s@[j - 1]);
            assert(s@.subrange(0, j as int).drop_last() =~= s@.subrange(0, j as int - 1));
        }
        j -= 1;
    }
    s.substring_char(0, j)
}

fn trim_start_char_exec<'a>(s: &'a str, c: char) -> (r: &'a str)
    ensures
        r@ == trim_start_char(s@, c),
{
    let n = s.unicode_len();
    proof {
        assert(s@.subrange(0, n as int) =~= s@);
    }
    let mut i: usize = 0;
    while i < n && s.get_char(i) == c
        invariant
            i <= n,
            n == s@.len(),
            trim_start_char(s@, c) == trim_start_char(s@.subrange(i as int, n as int), c),
        decreases n - i,
    {
        proof {
            assert(s@.subrange(i as int, n as int)[0] == s@[i as int]);
            assert(s@.subrange(i as int, n as int).drop_first() =~= s@.subrange(
                i as int + 1,
                n as int,
            ));
        }
        i += 1;
    }
    s.substring_char(i, n)
}

/// The incoming path with the configured prefix stripped; a path that
/// becomes empty is replaced by the root path.
pub open spec fn spec_remove_prefix(p: Seq<char>, pre: Seq<char>) -> Seq<char> {
    if pre.len() > 0 && starts_with_spec(p, pre) {
        let rest = p.subrange(pre.len() as int, p.len() as int);
        if rest.len() == 0 {
            seq!['/']
        } else {
            rest
        }
    } else {
        p
    }
}

/// Strips `prefix` from the front of `path`; an emptied path becomes `/`,
/// and a path that does not start with the prefix is returned unchanged.
pub fn remove_prefix(path: &str, prefix: &str) -> (r: String)
    ensures
        r@ == spec_remove_prefix(path@, prefix@),
{
    let plen = prefix.unicode_len();
    let n = path.unicode_len();
    if plen > 0 && str_starts_with(path, prefix) {
        let rest = path.substring_char(plen, n);
        if rest.unicode_len() == 0 {
            proof {
                reveal_strlit("/");
                assert("/"@ =~= seq!['/']);
            }
            String::from_str("/")
        } else {
            String::from_str(rest)
        }
    } else {
        String::from_str(path)
    }
}

/// The path a request is forwarded under: health-check and
/// process-management paths go through unchanged; every other path is
/// stripped and re-rooted under the fixed `/v1` API segment.
pub open spec fn spec_get_destination_path(p: Seq<char>, pre: Seq<char>) -> Seq<char> {
    let stripped = spec_remove_prefix(p, pre);
    if contains_spec(stripped, "/healthz"@) || contains_spec(stripped, "/process"@) {
        p
    } else {
        "/v1"@ + stripped
    }
}

pub fn get_destination_path(original_path: &str, prefix: &str) -> (r: String)
    ensures
        r@ == spec_get_destination_path(original_path@, prefix@),
        // exempt paths are forwarded under their original, unstripped path
        (contains_spec(spec_remove_prefix(original_path@, prefix@), "/healthz"@) || contains_spec(
            spec_remove_prefix(original_path@, prefix@),
            "/process"@,
        )) ==> r@ == original_path@,
        // every other path is rewritten to /v1 plus the stripped path
        (!contains_spec(spec_remove_prefix(original_path@, prefix@), "/healthz"@)
            && !contains_spec(spec_remove_prefix(original_path@, prefix@), "/process"@)) ==> r@
            == "/v1"@ + spec_remove_prefix(original_path@, prefix@),
{
    let stripped = remove_prefix(original_path, prefix);
    if str_contains(stripped.as_str(), "/healthz") || str_contains(stripped.as_str(), "/process") {
        String::from_str(original_path)
    } else {
        let mut out = String::from_str("/v1");
        out.append(stripped.as_str());
        out
    }
}

/// The upstream base and the resolved path joined with exactly one slash.
pub open spec fn spec_build_upstream_url(up: Seq<char>, path: Seq<char>) -> Seq<char> {
    trim_end_char(up, '/') + seq!['/'] + trim_start_char(path, '/')
}

pub fn build_upstream_url(upstream: &str, path: &str) -> (r: String)
    ensures
        r@ == spec_build_upstream_url(upstream@, path@),
{
    let up = trim_end_char_exec(upstream, '/');
    let pc = trim_start_char_exec(path, '/');
    let mut out = String::from_str(up);
    out.append("/");
    out.append(pc);
    proof {
        reveal_strlit("/");
        assert("/"@ =~= seq!['/']);
    }
    out
}

/// The host portion of a Host header value: the piece before the first
/// `]` with leading `[` dropped for bracketed addresses, otherwise the
/// piece before the first `:`.
pub open spec fn host_without_port(h: Seq<char>) -> Seq<char> {
    if h.len() > 0 && h[0] == '[' {
        trim_start_char(h.subrange(0, index_of_first(h, ']')), '[')
    } else {
        h.subrange(0, index_of_first(h, ':'))
    }
}

fn host_without_port_exec<'a>(host: &'a str) -> (r: &'a str)
    requires
        host@.len() > 0,
    ensures
        r@ == host_without_port(host@),
{
    let n = host.unicode_len();
    if host.get_char(0) == '[' {
        let idx = index_of_first_exec(host, ']');
        proof {
            lemma_index_of_first(host@, ']');
        }
        let cut = host.substring_char(0, idx);
        trim_start_char_exec(cut, '[')
    } else {
        let idx = index_of_first_exec(host, ':');
        proof {
            lemma_index_of_first(host@, ':');
        }
        host.substring_char(0, idx)
    }
}

/// A Host header is accepted exactly when it is non-empty and its host
/// portion equals, ASCII-case-insensitively, `localhost`, the loopback
/// literal, or one of the configured trusted hosts.
pub open spec fn spec_is_valid_host(h: Seq<char>, trusted: Seq<Seq<char>>) -> bool {
    &&& h.len() > 0
    &&& {
        let hwp = lower_seq(host_without_port(h));
        ||| hwp == lower_seq("localhost"@)
        ||| hwp == lower_seq("127.0.0.1"@)
        ||| exists|i: int| 0 <= i < trusted.len() && hwp == lower_seq(#[trigger] trusted[i])
    }
}

pub fn is_valid_host(host: &str, trusted_hosts: &Vec<String>) -> (r: bool)
    ensures
        r == spec_is_valid_host(host@, trusted_hosts.deep_view()),
{
    if host.unicode_len() == 0 {
        return false;
    }
    let hwp = host_without_port_exec(host);
    if eq_ignore_ascii_case(hwp, "localhost") {
        return true;
    }
    if eq_ignore_ascii_case(hwp, "127.0.0.1") {
        return true;
    }
    let ghost trusted = trusted_hosts.deep_view();
    let mut i: usize = 0;
    while i < trusted_hosts.len()
        invariant
            i <= trusted_hosts.len(),
            trusted == trusted_hosts.deep_view(),
            trusted.len() == trusted_hosts.len(),
            host@.len() > 0,
            hwp@ == host_without_port(host@),
            forall|j: int|
                0 <= j < i ==> lower_seq(hwp@) != lower_seq(#[trigger] trusted[j]),
        decreases trusted_hosts.len() - i,
    {
        proof {
            assert(trusted[i as int] == trusted_hosts@[i as int]@);
        }
        if eq_ignore_ascii_case(hwp, trusted_hosts[i].as_str()) {
            proof {
                assert(lower_seq(host_without_port(host@)) == lower_seq(trusted[i as int]));
            }
            return true;
        }
        i += 1;
    }
    false
}

/// What the proxy decides to do with one request.
pub enum RouteDecision {
    Forward { upstream_url: String },
    Reject { status: u16, body: String },
}

/// The ghost counterpart of a decision, over character sequences.
pub enum RouteOutcome {
    Forward { upstream_url: Seq<char> },
    Reject { status: u16, body: Seq<char> },
}

pub open spec fn decision_matches(d: RouteDecision, o: RouteOutcome) -> bool {
    match (d, o) {
        (
            RouteDecision::Forward { upstream_url: u },
            RouteOutcome::Forward { upstream_url: su },
        ) => u@ == su,
        (
            RouteDecision::Reject { status: s, body: b },
            RouteOutcome::Reject { status: ss, body: sb },
        ) => s == ss && b@ == sb,
        _ => false,
    }
}

/// The full per-request decision, in the proxy's checking order: resolve
/// the destination, validate the Host header, authenticate the caller when
/// an API key is configured, refuse denylisted endpoints, and otherwise
/// forward to the joined upstream URL.
pub open spec fn spec_route(
    prefix: Seq<char>,
    upstream: Seq<char>,
    api_key: Seq<char>,
    trusted: Seq<Seq<char>>,
    path: Seq<char>,
    host: Option<Seq<char>>,
    auth: Option<Seq<char>>,
) -> RouteOutcome {
    let dest = spec_get_destination_path(path, prefix);
    match host {
        None => RouteOutcome::Reject { status: 400, body: "Missing host header"@ },
        Some(h) => {
            if !spec_is_valid_host(h, trusted) {
                RouteOutcome::Reject { status: 403, body: "Invalid host header"@ }
            } else if api_key.len() > 0 && auth is None {
                RouteOutcome::Reject { status: 401, body: "Missing authorization header"@ }
            } else if api_key.len() > 0 && (auth matches Some(a) && a != "Bearer "@ + api_key) {
                RouteOutcome::Reject {
                    status: 401,
                    body: "Invalid or missing authorization token"@,
                }
            } else if contains_spec(dest, "/configs"@) {
                RouteOutcome::Reject { status: 404, body: "Not Found"@ }
            } else {
                RouteOutcome::Forward { upstream_url: spec_build_upstream_url(upstream, dest) }
            }
        },
    }
}

/// The caller's credential equals `Bearer ` followed by the API key.
fn bearer_matches(auth: &str, key: &str) -> (r: bool)
    ensures
        r == (auth@ == "Bearer "@ + key@),
{
    let mut expected = String::from_str("Bearer ");
    expected.append(key);
    str_eq(auth, expected.as_str())
}

/// Decides one request. The decision agrees with `spec_route` on every
/// input; the extra clauses restate the authentication and denylist
/// guarantees on their own.
pub fn route_request(
    config: &ProxyConfig,
    path: &str,
    host: &Option<String>,
    authorization: &Option<String>,
) -> (d: RouteDecision)
    ensures
        decision_matches(
            d,
            spec_route(
                config.prefix@,
                config.upstream@,
                config.api_key@,
                config.trusted_hosts.deep_view(),
                path@,
                host.deep_view(),
                authorization.deep_view(),
            ),
        ),
        // a configured API key turns any absent or non-matching credential into 401
        (host matches Some(h) && spec_is_valid_host(h@, config.trusted_hosts.deep_view())
            && config.api_key@.len() > 0 && !(authorization matches Some(a) && a@ == "Bearer "@
            + config.api_key@)) ==> (d matches RouteDecision::Reject { status, .. } && status
            == 401),
        // a denylisted resolved path is 404 even for a valid host and credential
        (host matches Some(h) && spec_is_valid_host(h@, config.trusted_hosts.deep_view())
            && (config.api_key@.len() == 0 || (authorization matches Some(a) && a@ == "Bearer "@
            + config.api_key@)) && contains_spec(
            spec_get_destination_path(path@, config.prefix@),
            "/configs"@,
        )) ==> (d matches RouteDecision::Reject { status, .. } && status == 404),
        // nothing is forwarded unless the host was valid
        (d matches RouteDecision::Forward { .. }) ==> (host matches Some(h) && spec_is_valid_host(
            h@,
            config.trusted_hosts.deep_view(),
        )),
{
    let dest = get_destination_path(path, config.prefix.as_str());
    let h = match host {
        None => {
            return RouteDecision::Reject {
                status: 400,
                body: String::from_str("Missing host header"),
            };
        },
        Some(h) => h,
    };
    if !is_valid_host(h.as_str(), &config.trusted_hosts) {
        return RouteDecision::Reject {
            status: 403,
            body: String::from_str("Invalid host header"),
        };
    }
    if config.api_key.unicode_len() > 0 {
        match authorization {
            None => {
                return RouteDecision::Reject {
                    status: 401,
                    body: String::from_str("Missing authorization header"),
                };
            },
            Some(a) => {
                if !bearer_matches(a.as_str(), config.api_key.as_str()) {
                    return RouteDecision::Reject {
                        status: 401,
                        body: String::from_str("Invalid or missing authorization token"),
                    };
                }
            },
        }
    }
    if str_contains(dest.as_str(), "/configs") {
        return RouteDecision::Reject { status: 404, body: String::from_str("Not Found") };
    }
    RouteDecision::Forward {
        upstream_url: build_upstream_url(config.upstream.as_str(), dest.as_str()),
    }
}

/// Header names the proxy never copies upstream.
pub open spec fn is_stripped_header(name: Seq<char>) -> bool {
    lower_seq(name) == lower_seq("Host"@) || lower_seq(name) == lower_seq("Authorization"@)
}

/// The request headers with Host and Authorization dropped, order kept.
pub open spec fn kept_headers(hs: Seq<(Seq<char>, Seq<char>)>) -> Seq<(Seq<char>, Seq<char>)>
    decreases hs.len(),
{
    if hs.len() == 0 {
        Seq::empty()
    } else {
        let rest = kept_headers(hs.drop_last());
        if is_stripped_header(hs.last().0) {
            rest
        } else {
            rest.push(hs.last())
        }
    }
}

/// The headers a forwarded request carries: the kept originals followed by
/// a fresh bearer credential holding the process token.
pub open spec fn spec_forward_headers(hs: Seq<(Seq<char>, Seq<char>)>, token: Seq<char>) -> Seq<
    (Seq<char>, Seq<char>),
> {
    kept_headers(hs).push(("Authorization"@, "Bearer "@ + token))
}

/// Builds the outbound header list: every original header except Host and
/// Authorization (compared ASCII-case-insensitively), in order, then one
/// `Authorization: Bearer <app token>` entry.
pub fn forward_headers(headers: &Vec<(String, String)>, app_token: &String) -> (r: Vec<
    (String, String),
>)
    ensures
        r.deep_view() == spec_forward_headers(headers.deep_view(), app_token@),
{
    let ghost hs = headers.deep_view();
    let mut out: Vec<(String, String)> = Vec::new();
    let mut i: usize = 0;
    proof {
        assert(hs.subrange(0, 0) =~= Seq::<(Seq<char>, Seq<char>)>::empty());
    }
    while i < headers.len()
        invariant
            i <= headers.len(),
            hs == headers.deep_view(),
            hs.len() == headers.len(),
            out.deep_view() == kept_headers(hs.subrange(0, i as int)),
        decreases headers.len() - i,
    {
        proof {
            assert(hs.subrange(0, i as int + 1).drop_last() =~= hs.subrange(0, i as int));
            assert(hs.subrange(0, i as int + 1).last() == hs[i as int]);
            assert(hs[i as int] == (headers@[i as int].0@, headers@[i as int].1@));
        }
        let name = &headers[i].0;
        let skip = eq_ignore_ascii_case(name.as_str(), "Host") || eq_ignore_ascii_case(
            name.as_str(),
            "Authorization",
        );
        if !skip {
            out.push((headers[i].0.clone(), headers[i].1.clone()));
            proof {
                assert(out.deep_view() =~= kept_headers(hs.subrange(0, i as int + 1)));
            }
        } else {
            proof {
                assert(out.deep_view() =~= kept_headers(hs.subrange(0, i as int + 1)));
            }
        }
        i += 1;
    }
    proof {
        assert(hs.subrange(0, headers.len() as int) =~= hs);
    }
    let mut bearer = String::from_str("Bearer ");
    bearer.append(app_token.as_str());
    out.push((String::from_str("Authorization"), bearer));
    proof {
        assert(out.deep_view() =~= spec_forward_headers(hs, app_token@));
    }
    out
}

/// No kept header is a Host or Authorization header.
proof fn lemma_kept_headers_stripped(hs: Seq<(Seq<char>, Seq<char>)>)
    ensures
        forall|j: int|
            0 <= j < kept_headers(hs).len() ==> !is_stripped_header(
                #[trigger] kept_headers(hs)[j].0,
            ),
    decreases hs.len(),
{
    if hs.len() > 0 {
        lemma_kept_headers_stripped(hs.drop_last());
        let rest = kept_headers(hs.drop_last());
        assert forall|j: int| 0 <= j < kept_headers(hs).len() implies !is_stripped_header(
            #[trigger] kept_headers(hs)[j].0,
        ) by {
            if j < rest.len() {
                assert(kept_headers(hs)[j] == rest[j]);
            } else {
                assert(kept_headers(hs)[j] == hs.last());
            }
        }
    }
}

/// A forwarded request never carries the caller's Authorization or Host
/// header: every entry but the last has a name that is neither, and the
/// last entry is exactly the fresh bearer credential with the process
/// token.
pub proof fn lemma_forwarded_headers_credentials(hs: Seq<(Seq<char>, Seq<char>)>, token: Seq<char>)
    ensures
        forall|j: int|
            0 <= j < spec_forward_headers(hs, token).len() - 1 ==> !is_stripped_header(
                #[trigger] spec_forward_headers(hs, token)[j].0,
            ),
        spec_forward_headers(hs, token).last() == ("Authorization"@, "Bearer "@ + token),
{
    lemma_kept_headers_stripped(hs);
    assert forall|j: int| 0 <= j < spec_forward_headers(hs, token).len() - 1 implies
        !is_stripped_header(#[trigger] spec_forward_headers(hs, token)[j].0) by {
        assert(spec_forward_headers(hs, token)[j] == kept_headers(hs)[j]);
    }
}

/// What came back from the worker for one forwarded request, as the
/// embedding application reports it.
pub enum UpstreamOutcome {
    /// Headers arrived; the body either followed whole or failed midway.
    Response { status: u16, headers: Vec<(String, String)>, body: Result<Vec<u8>, String> },
    /// The worker could not be reached at all.
    TransportError { message: String },
}

/// The body of a client-visible response.
pub enum ResponseBody {
    Bytes(Vec<u8>),
    Text(String),
}

/// A response the proxy hands back to the caller.
pub struct ClientResponse {
    pub status: u16,
    pub headers: Vec<(String, String)>,
    pub body: ResponseBody,
}

/// Turns an upstream outcome into the client's response: a whole upstream
/// exchange is relayed verbatim, a body that failed midway becomes 500,
/// and an unreachable worker becomes 502 with the transport error quoted.
pub fn relay_response(outcome: UpstreamOutcome) -> (r: ClientResponse)
    ensures
        (outcome matches UpstreamOutcome::Response { status, headers, body: Ok(bytes) } ==> {
            &&& r.status == status
            &&& r.headers.deep_view() == headers.deep_view()
            &&& r.body matches ResponseBody::Bytes(b) && b@ == bytes@
        }),
        (outcome matches UpstreamOutcome::Response { body: Err(_), .. } ==> {
            &&& r.status == 500
            &&& r.headers.len() == 0
            &&& r.body matches ResponseBody::Text(t) && t@ == "Error reading upstream response"@
        }),
        (outcome matches UpstreamOutcome::TransportError { message } ==> {
            &&& r.status == 502
            &&& r.headers.len() == 0
            &&& r.body matches ResponseBody::Text(t) && t@ == "Upstream error: "@ + message@
        }),
{
    match outcome {
        UpstreamOutcome::Response { status, headers, body } => match body {
            Ok(bytes) => ClientResponse { status, headers, body: ResponseBody::Bytes(bytes) },
            Err(_) => ClientResponse {
                status: 500,
                headers: Vec::new(),
                body: ResponseBody::Text(String::from_str("Error reading upstream response")),
            },
        },
        UpstreamOutcome::TransportError { message } => {
            let mut text = String::from_str("Upstream error: ");
            text.append(message.as_str());
            ClientResponse { status: 502, headers: Vec::new(), body: ResponseBody::Text(text) }
        },
    }
}

} // verus!

