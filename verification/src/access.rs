//! The remote-access gate: the single shared bearer token, the listening
//! port range, and the status the desktop UI reads.
//!
//! Exactly one token is valid system-wide at any instant: issuing a new
//! one overwrites the previous, and revocation clears it at once. A token
//! carries an absolute expiry; validation checks both the exact value and
//! that the expiry has not passed.

use vstd::prelude::*;

use crate::ids::fresh_id;
use crate::strutil::{dec_digits, str_eq, u16_to_dec};

verus! {

/// How long an issued token stays valid, in seconds.
pub const TOKEN_TTL_SECS: i64 = 300;

/// First candidate port for the listening socket.
pub const PORT_RANGE_START: u16 = 8800;

/// Last candidate port for the listening socket.
pub const PORT_RANGE_END: u16 = 8899;

/// An issued token and its absolute expiry, in epoch seconds.
#[derive(Debug, Clone)]
pub struct TokenInfo {
    pub token: String,
    pub expires_at: i64,
}

/// The process-wide token slot. At most one token exists; a newly issued
/// one takes the place of the old.
#[derive(Debug, Clone)]
pub struct TokenGate {
    pub current: Option<TokenInfo>,
}

impl TokenGate {
    /// A presented value passes at `now` iff it equals the current
    /// token's value and the expiry lies in the future.
    pub open spec fn valid_spec(self, presented: Seq<char>, now: i64) -> bool {
        match self.current {
            Some(t) => presented == t.token@ && t.expires_at > now,
            None => false,
        }
    }

    /// An empty gate: nothing validates.
    pub fn new() -> (r: Self)
        ensures
            r.current is None,
    {
        TokenGate { current: None }
    }

    /// Installs a token with its absolute expiry, replacing any previous
    /// one.
    pub fn issue(&mut self, token: String, expires_at: i64)
        ensures
            final(self).current == Some(TokenInfo { token, expires_at }),
    {
        self.current = Some(TokenInfo { token, expires_at });
    }

    /// Clears the current token immediately; nothing validates afterwards.
    pub fn revoke(&mut self)
        ensures
            final(self).current is None,
    {
        self.current = None;
    }

    /// Checks a presented value at `now`.
    pub fn validate(&self, presented: &str, now: i64) -> (r: bool)
        ensures
            r == self.valid_spec(presented@, now),
    {
        match &self.current {
            Some(t) => str_eq(presented, t.token.as_str()) && t.expires_at > now,
            None => false,
        }
    }
}

/// Status of the remote-access server, as the desktop UI reads it.
#[derive(Debug, Clone)]
pub struct WebAccessStatus {
    pub running: bool,
    pub port: u16,
    pub connected_clients: usize,
    pub has_valid_token: bool,
}

/// What issuing a token hands back: the address to visit, the token, and
/// its validity window in seconds.
#[derive(Debug, Clone)]
pub struct WebAccessTokenResult {
    pub url: String,
    pub token: String,
    pub expires_in_secs: u64,
}

/// The URL a client visits: scheme, host address, and port.
pub open spec fn url_of(ip: Seq<char>, port: u16) -> Seq<char> {
    "http://"@ + ip + ":"@ + dec_digits(port as nat)
}

/// Relies on local_ip_address's `local_ip` for the machine's LAN address;
/// the unspecified-address text stands in when none can be found. The
/// result depends on the machine, so nothing is assumed of its value.
#[verifier::external_body]
fn local_ip_text() -> (r: String)
{
    match local_ip_address::local_ip() {
        Ok(ip) => ip.to_string(),
        Err(_) => "0.0.0.0".to_string(),
    }
}

/// The remote-access server's control state: the bound port, the token
/// slot, and the live-client gauge.
#[derive(Debug, Clone)]
pub struct WebAccess {
    pub port: u16,
    pub gate: TokenGate,
    pub connected_clients: usize,
}

impl WebAccess {
    /// Control state for a server bound on the given port.
    pub fn new(port: u16) -> (r: Self)
        ensures
            r.port == port,
            r.gate.current is None,
            r.connected_clients == 0,
    {
        WebAccess { port, gate: TokenGate::new(), connected_clients: 0 }
    }

    /// Issues a fresh token valid for the fixed window from `now`,
    /// overwriting any previously issued token, and returns it with the
    /// URL to visit. The URL names the machine's LAN address and the
    /// bound port.
    pub fn issue_token(&mut self, now: i64) -> (r: WebAccessTokenResult)
        requires
            now <= i64::MAX - TOKEN_TTL_SECS,
        ensures
            final(self).port == old(self).port,
            final(self).connected_clients == old(self).connected_clients,
            final(self).gate.current matches Some(t) && t.token@ == r.token@ && t.token@.len()
                == 36 && t.expires_at == now + TOKEN_TTL_SECS,
            r.token@.len() == 36,
            r.expires_in_secs == TOKEN_TTL_SECS as u64,
            exists|ip: Seq<char>| r.url@ == #[trigger] url_of(ip, old(self).port),
    {
        let token = fresh_id();
        self.gate.issue(token.clone(), now + TOKEN_TTL_SECS);
        let ip = local_ip_text();
        let mut url = String::new();
        url.append("http://");
        url.append(ip.as_str());
        url.append(":");
        let port_text = u16_to_dec(self.port);
        url.append(port_text.as_str());
        proof {
            assert(url@ =~= url_of(ip@, old(self).port));
        }
        WebAccessTokenResult { url, token, expires_in_secs: TOKEN_TTL_SECS as u64 }
    }

    /// Clears the current token; already-connected clients are not
    /// touched, but no new connection can authenticate.
    pub fn revoke(&mut self)
        ensures
            final(self).gate.current is None,
            final(self).port == old(self).port,
            final(self).connected_clients == old(self).connected_clients,
    {
        self.gate.revoke();
    }

    /// The server status at `now`: the bound port, the live-client count,
    /// and whether an unexpired token is installed.
    pub fn get_status(&self, now: i64) -> (r: WebAccessStatus)
        ensures
            r.running == true,
            r.port == self.port,
            r.connected_clients == self.connected_clients,
            r.has_valid_token == (self.gate.current matches Some(t) && t.expires_at > now),
    {
        let has_valid_token = match &self.gate.current {
            Some(t) => t.expires_at > now,
            None => false,
        };
        WebAccessStatus {
            running: true,
            port: self.port,
            connected_clients: self.connected_clients,
            has_valid_token,
        }
    }

    /// Counts one client in, saturating at the gauge's capacity.
    pub fn client_connected(&mut self)
        ensures
            final(self).port == old(self).port,
            final(self).gate == old(self).gate,
            old(self).connected_clients < usize::MAX ==> final(self).connected_clients == old(
                self,
            ).connected_clients + 1,
            old(self).connected_clients == usize::MAX ==> final(self).connected_clients == old(
                self,
            ).connected_clients,
    {
        if self.connected_clients < usize::MAX {
            self.connected_clients = self.connected_clients + 1;
        }
    }

    /// Counts one client out; an empty gauge stays empty.
    pub fn client_disconnected(&mut self)
        ensures
            final(self).port == old(self).port,
            final(self).gate == old(self).gate,
            old(self).connected_clients > 0 ==> final(self).connected_clients == old(
                self,
            ).connected_clients - 1,
            old(self).connected_clients == 0 ==> final(self).connected_clients == 0,
    {
        if self.connected_clients > 0 {
            self.connected_clients = self.connected_clients - 1;
        }
    }
}

/// The candidate listening ports, in the order they are to be probed:
/// the fixed range, ascending. The caller binds the first that succeeds.
pub fn port_candidates(start: u16, end: u16) -> (r: Vec<u16>)
    requires
        start <= end,
    ensures
        r@.len() == end - start + 1,
        forall|i: int| 0 <= i < r@.len() ==> r@[i] == start + i,
{
    let mut out: Vec<u16> = Vec::new();
    let mut p: u16 = start;
    let mut done: bool = false;
    while !done
        invariant
            start <= end,
            !done ==> start <= p <= end && out@.len() == p - start,
            done ==> out@.len() == end - start + 1,
            forall|i: int| 0 <= i < out@.len() ==> out@[i] == start + i,
        decreases (if done { 0int } else { end - p + 1 }),
    {
        out.push(p);
        if p == end {
            done = true;
        } else {
            p = p + 1;
        }
    }
    out
}

/// Issuing a new token invalidates the previous one at once: once the
/// gate holds the second token, the first no longer validates at any
/// instant, while the second validates until its expiry.
pub proof fn lemma_token_single_validity(
    gate: TokenGate,
    first: Seq<char>,
    second: Seq<char>,
    expires_at: i64,
    now: i64,
)
    requires
        first != second,
        gate.current matches Some(t) && t.token@ == second && t.expires_at == expires_at,
        now < expires_at,
    ensures
        !gate.valid_spec(first, now),
        gate.valid_spec(second, now),
{
}

} // verus!
