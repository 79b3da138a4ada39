//! Gateway lifecycle: the single listener slot, the per-listener proxy
//! configuration handed to the serving loop, and the process-wide
//! application token injected into every forwarded request.

use rand::Rng;
use vstd::prelude::*;

use crate::proxy::ProxyConfig;

verus! {

/// The fixed local address the worker listens on; the proxy forwards
/// every accepted request there.
pub const UPSTREAM_BASE_URL: &'static str = "http://127.0.0.1:39291";

/// Why a start request was refused.
#[derive(Clone, Copy, PartialEq, Eq, Structural, Debug)]
pub enum GatewayError {
    /// A listener is already live; at most one may exist at a time.
    AlreadyRunning,
}

impl GatewayError {
    /// A human-readable description of the error.
    pub fn message(&self) -> (r: String)
        ensures
            r@ == "Server is already running"@,
    {
        String::from_str("Server is already running")
    }
}

/// The process-wide slot holding at most one live listener.
pub struct GatewayState {
    pub running: bool,
}

impl GatewayState {
    /// A fresh slot with no listener.
    pub fn new() -> (s: Self)
        ensures
            !s.running,
    {
        GatewayState { running: false }
    }

    /// Claims the slot and assembles the proxy configuration the serving
    /// loop will use. Fails, changing nothing, exactly when a listener is
    /// already live; on success the returned configuration carries the
    /// given settings and the fixed upstream address.
    pub fn start_server(
        &mut self,
        prefix: String,
        auth_token: String,
        api_key: String,
        trusted_hosts: Vec<String>,
    ) -> (r: Result<ProxyConfig, GatewayError>)
        ensures
            old(self).running ==> r == Result::<ProxyConfig, GatewayError>::Err(
                GatewayError::AlreadyRunning,
            ) && *final(self) == *old(self),
            !old(self).running ==> final(self).running && (r matches Ok(config) && {
                &&& config.upstream@ == UPSTREAM_BASE_URL@
                &&& config.prefix == prefix
                &&& config.auth_token == auth_token
                &&& config.api_key == api_key
                &&& config.trusted_hosts == trusted_hosts
            }),
    {
        if self.running {
            return Err(GatewayError::AlreadyRunning);
        }
        self.running = true;
        Ok(
            ProxyConfig {
                upstream: String::from_str(UPSTREAM_BASE_URL),
                prefix,
                auth_token,
                trusted_hosts,
                api_key,
            },
        )
    }

    /// Releases the slot. A second stop is a no-op: the slot is empty
    /// afterwards either way, and stopping never fails.
    pub fn stop_server(&mut self) -> (was_running: bool)
        ensures
            !final(self).running,
            was_running == old(self).running,
    {
        let was = self.running;
        self.running = false;
        was
    }
}

/// Characters an application token is drawn from.
pub open spec fn is_token_char(c: char) -> bool {
    ('a' <= c && c <= 'z') || ('A' <= c && c <= 'Z') || ('0' <= c && c <= '9')
}

/// Relies on rand's `thread_rng` sampled through the `Alphanumeric`
/// distribution: every drawn byte is one of `A`-`Z`, `a`-`z`, `0`-`9`,
/// and exactly 32 are drawn. Nothing more can be promised of a random
/// value.
#[verifier::external_body]
pub fn generate_app_token() -> (r: String)
    ensures
        r@.len() == 32,
        forall|i: int| 0 <= i < r@.len() ==> is_token_char(#[trigger] r@[i]),
{
    rand::thread_rng()
        .sample_iter(&rand::distributions::Alphanumeric)
        .take(32)
        .map(char::from)
        .collect()
}

} // verus!
