//! The client's side: which address families to knock on, what to send, and
//! how to judge the server's replies.

use crate::auth::{expected_auth, Key};
use crate::config::{key_of, resource_of_port, Config};
use crate::protocol::{client_receive, reply_outcome, ProtocolError};
use crate::wire::{Message, Operation};
use vstd::prelude::*;

verus! {

/// Which address families a knock goes to.
#[derive(Clone, Copy, Debug, Default, PartialEq, Eq, Structural)]
pub enum AddrMode {
    /// IPv6 then IPv4 for a host name; one success is enough.
    #[default]
    TryBoth,
    /// IPv6 and IPv4; both must succeed.
    Both,
    Ipv6,
    Ipv4,
}

/// Address family of one knock attempt.
#[derive(Clone, Copy, Debug, PartialEq, Eq, Structural)]
pub enum ResMode {
    Ipv6,
    Ipv4,
}

/// What the host argument of a knock is.
#[derive(Clone, Copy, Debug, PartialEq, Eq, Structural)]
pub enum HostKind {
    Ipv4Literal,
    Ipv6Literal,
    Name,
}

/// Why a knock cannot start.
#[derive(Clone, Copy, Debug, PartialEq, Eq, Structural)]
pub enum KnockError {
    /// The configuration has no key for this user.
    NoKey(u32),
    /// The configuration maps no resource to this port.
    NoResource(u16),
}

/// Which of a reply's identifiers differ from those that were sent.
#[derive(Clone, Copy, Debug, PartialEq, Eq, Structural)]
pub struct ReplyCheck {
    pub user_differs: bool,
    pub resource_differs: bool,
}

/// One knock: who knocks, for which resource, with which key, on which
/// server port.
#[derive(Clone, Copy)]
pub struct KnockSeq {
    pub server_port: u16,
    pub user: u32,
    pub resource: u32,
    pub key: Key,
}

/// The attempts of a knock and whether all must succeed.
pub struct KnockPlan {
    pub seq: KnockSeq,
    pub attempts: Vec<ResMode>,
    pub require_all: bool,
}

pub open spec fn addr_mode_of(ipv4: bool, ipv6: bool) -> AddrMode {
    if !ipv4 && !ipv6 {
        AddrMode::TryBoth
    } else if ipv4 && ipv6 {
        AddrMode::Both
    } else if ipv6 {
        AddrMode::Ipv6
    } else {
        AddrMode::Ipv4
    }
}

/// The families to knock on, in order, for `mode` and a host of kind `host`.
pub open spec fn attempts_of(mode: AddrMode, host: HostKind) -> Seq<ResMode> {
    match mode {
        AddrMode::TryBoth => match host {
            HostKind::Ipv4Literal => seq![ResMode::Ipv4],
            HostKind::Ipv6Literal => seq![ResMode::Ipv6],
            HostKind::Name => seq![ResMode::Ipv6, ResMode::Ipv4],
        },
        AddrMode::Both => seq![ResMode::Ipv6, ResMode::Ipv4],
        AddrMode::Ipv6 => seq![ResMode::Ipv6],
        AddrMode::Ipv4 => seq![ResMode::Ipv4],
    }
}

impl From<(bool, bool)> for AddrMode {
    /// The mode that the `--ipv4` and `--ipv6` switches select.
    fn from(ipv4_ipv6: (bool, bool)) -> (r: AddrMode) {
        match ipv4_ipv6 {
            (false, false) => AddrMode::TryBoth,
            (true, true) => AddrMode::Both,
            (false, true) => AddrMode::Ipv6,
            (true, false) => AddrMode::Ipv4,
        }
    }
}

impl vstd::std_specs::convert::FromSpecImpl<(bool, bool)> for AddrMode {
    open spec fn obeys_from_spec() -> bool {
        true
    }

    open spec fn from_spec(v: (bool, bool)) -> AddrMode {
        addr_mode_of(v.0, v.1)
    }
}

/// Whether a knock succeeded, given the outcome of each attempt made.
pub fn knock_succeeded(require_all: bool, results: &Vec<bool>) -> (r: bool)
    ensures
        r == if require_all {
            forall|i: int| 0 <= i < results@.len() ==> results@[i]
        } else {
            exists|i: int| 0 <= i < results@.len() && results@[i]
        },
{
    let mut all = true;
    let mut any = false;
    let mut i: usize = 0;
    while i < results.len()
        invariant
            i <= results@.len(),
            all == (forall|j: int| 0 <= j < i ==> results@[j]),
            any == (exists|j: int| 0 <= j < i && results@[j]),
        decreases results@.len() - i,
    {
        if results[i] {
            any = true;
        } else {
            all = false;
        }
        i = i + 1;
    }
    if require_all {
        all
    } else {
        any
    }
}

/// Whether a failed attempt ends the knock at once.
pub fn stops_on_failure(require_all: bool, ok: bool) -> (r: bool)
    ensures
        r == (require_all && !ok),
{
    require_all && !ok
}

/// Resolves the user, key, resource and server port of a knock, and the
/// families to knock on. The user defaults to the configured one, the server
/// port to the configured port.
pub fn plan_knock(
    conf: &Config,
    addr_mode: AddrMode,
    host: HostKind,
    server_port: Option<u16>,
    knock_port: u16,
    user: Option<u32>,
) -> (r: Result<KnockPlan, KnockError>)
    ensures
        ({
            let u = match user {
                Some(u) => u,
                None => conf.default_user,
            };
            match r {
                Ok(plan) => {
                    &&& key_of(conf.keys@, u) == Some(plan.seq.key)
                    &&& resource_of_port(conf.resources@, knock_port) == Some(plan.seq.resource)
                    &&& plan.seq.user == u
                    &&& plan.seq.server_port == match server_port {
                        Some(p) => p,
                        None => conf.port,
                    }
                    &&& plan.attempts@ == attempts_of(addr_mode, host)
                    &&& plan.require_all == (addr_mode == AddrMode::Both)
                },
                Err(KnockError::NoKey(e)) => e == u && key_of(conf.keys@, u) is None,
                Err(KnockError::NoResource(p)) => p == knock_port && key_of(conf.keys@, u) is Some
                    && resource_of_port(conf.resources@, knock_port) is None,
            }
        }),
{
    let user = match user {
        Some(u) => u,
        None => conf.default_user,
    };
    let key = match conf.key(user) {
        Some(k) => k,
        None => return Err(KnockError::NoKey(user)),
    };
    let resource = match conf.resource_id_by_port(knock_port) {
        Some(r) => r,
        None => return Err(KnockError::NoResource(knock_port)),
    };
    let server_port = match server_port {
        Some(p) => p,
        None => conf.port,
    };
    let attempts = match addr_mode {
        AddrMode::TryBoth => match host {
            HostKind::Ipv4Literal => vec![ResMode::Ipv4],
            HostKind::Ipv6Literal => vec![ResMode::Ipv6],
            HostKind::Name => vec![ResMode::Ipv6, ResMode::Ipv4],
        },
        AddrMode::Both => vec![ResMode::Ipv6, ResMode::Ipv4],
        AddrMode::Ipv6 => vec![ResMode::Ipv6],
        AddrMode::Ipv4 => vec![ResMode::Ipv4],
    };
    assert(attempts@ =~= attempts_of(addr_mode, host));
    let require_all = match addr_mode {
        AddrMode::Both => true,
        _ => false,
    };
    Ok(KnockPlan { seq: KnockSeq { server_port, user, resource, key }, attempts, require_all })
}

impl KnockSeq {
    /// Compares a reply's user and resource with those that were sent. A
    /// difference is worth a warning, not a failure: the authenticator
    /// decides.
    pub fn check_reply(&self, msg: &Message) -> (r: ReplyCheck)
        ensures
            r.user_differs == (msg.user != self.user),
            r.resource_differs == (msg.resource != self.resource),
    {
        ReplyCheck { user_differs: msg.user != self.user, resource_differs: msg.resource != self.resource }
    }

    /// The knock to send, with `salt`, signed with the key.
    pub fn knock_message(&self, salt: [u8; 16]) -> (r: Message)
        ensures
            r.operation == Operation::Knock,
            r.user == self.user,
            r.resource == self.resource,
            r.salt == salt,
            r.payload@ == Seq::new(32, |i: int| 0u8),
            r.auth@ == expected_auth(r, self.key, None),
    {
        let mut m = Message::with_salt(Operation::Knock, self.user, self.resource, salt);
        m.sign_no_challenge(&self.key);
        m
    }

    /// Reads the server's challenge from `b` and builds the response, with
    /// `salt`, bound to it. The result is the challenge and the response.
    pub fn on_challenge(&self, b: &[u8], salt: [u8; 16]) -> (r: Result<(Message, Message), ProtocolError>)
        ensures
            match r {
                Ok((c, resp)) => {
                    &&& reply_outcome(b@, self.key, Operation::Challenge, None) == Ok::<
                        Message,
                        ProtocolError,
                    >(c)
                    &&& resp.operation == Operation::Response
                    &&& resp.user == self.user
                    &&& resp.resource == self.resource
                    &&& resp.salt == salt
                    &&& resp.payload@ == Seq::new(32, |i: int| 0u8)
                    &&& resp.auth@ == expected_auth(resp, self.key, Some(c))
                },
                Err(e) => reply_outcome(b@, self.key, Operation::Challenge, None) == Err::<
                    Message,
                    ProtocolError,
                >(e),
            },
    {
        let c = match client_receive(b, &self.key, Operation::Challenge, None) {
            Ok(c) => c,
            Err(e) => return Err(e),
        };
        let mut resp = Message::with_salt(Operation::Response, self.user, self.resource, salt);
        resp.sign_with_challenge(&self.key, &c);
        Ok((c, resp))
    }

    /// Reads the server's last message from `b`: `ComeIn` bound to
    /// `challenge` ends the knock with success.
    pub fn on_come_in(&self, b: &[u8], challenge: &Message) -> (r: Result<Message, ProtocolError>)
        ensures
            r == reply_outcome(b@, self.key, Operation::ComeIn, Some(*challenge)),
    {
        client_receive(b, &self.key, Operation::ComeIn, Some(challenge))
    }
}

} // verus!
