//! The decisions of one handshake, on each side: which message to send next,
//! or whether to close, given what was received.

use crate::auth::{expected_auth, verifies, Key};
use crate::config::{key_of, port_of_resource, Config};
use crate::wire::{decode_error, encoding, DecodeError, Message, Operation};
use vstd::prelude::*;

verus! {

/// Why a client gives up a handshake.
#[derive(Clone, Copy, Debug, PartialEq, Eq, Structural)]
pub enum ProtocolError {
    /// The reply is not a message.
    Malformed(DecodeError),
    /// The reply is a message of another step.
    UnexpectedOperation(Operation),
    /// The reply's authenticator is not the one the key gives it.
    BadAuthenticator,
    /// The server refused to open the port.
    Denied,
}

/// The payload of a challenge that carries `nonce`.
pub open spec fn challenge_payload(nonce: [u8; 16]) -> Seq<u8> {
    nonce@ + Seq::new(16, |i: int| 0u8)
}

/// Whether the server takes `m` as a knock under `conf`.
pub open spec fn knock_accepted(conf: Config, m: Message) -> bool {
    &&& key_of(conf.keys@, m.user) is Some
    &&& port_of_resource(conf.resources@, m.resource) is Some
    &&& verifies(m, key_of(conf.keys@, m.user).unwrap(), Operation::Knock, m.user, m.resource, None)
}

/// Whether the server takes `m` as the response to `challenge` under `conf`.
pub open spec fn response_accepted(conf: Config, challenge: Message, m: Message) -> bool {
    &&& key_of(conf.keys@, challenge.user) is Some
    &&& port_of_resource(conf.resources@, challenge.resource) is Some
    &&& verifies(
        m,
        key_of(conf.keys@, challenge.user).unwrap(),
        Operation::Response,
        challenge.user,
        challenge.resource,
        Some(challenge),
    )
}

/// Whether a client holding `key` takes `m` as a reply of kind `op` that is
/// signed over its own fields, bound to `challenge` when there is one.
pub open spec fn reply_authentic(m: Message, key: Key, op: Operation, challenge: Option<Message>) -> bool {
    verifies(m, key, op, m.user, m.resource, challenge)
}

/// `c` is the challenge that answers the knock `m` under `conf` with `nonce`
/// and `salt`.
pub open spec fn challenge_for(conf: Config, m: Message, nonce: [u8; 16], salt: [u8; 16], c: Message) -> bool {
    &&& c.operation == Operation::Challenge
    &&& c.user == m.user
    &&& c.resource == m.resource
    &&& c.salt == salt
    &&& c.payload@ == challenge_payload(nonce)
    &&& c.auth@ == expected_auth(c, key_of(conf.keys@, m.user).unwrap(), None)
}

/// Decides on a received knock. The answer is the challenge to send, which
/// carries `nonce` and `salt` and is signed with the user's key; `None`
/// means to close without a reply.
pub fn server_on_knock(conf: &Config, b: &[u8], nonce: [u8; 16], salt: [u8; 16]) -> (r: Option<
    Message,
>)
    ensures
        r is Some <==> decode_error(b@) is None && exists|m: Message|
            encoding(m) == b@ && #[trigger] knock_accepted(*conf, m),
        forall|m: Message|
            #![trigger encoding(m)]
            encoding(m) == b@ && r is Some ==> challenge_for(*conf, m, nonce, salt, r.unwrap()),
{
    let m = match Message::decode(b) {
        Ok(m) => m,
        Err(_) => return None,
    };
    proof {
        crate::wire::lemma_decode_encode(m);
    }
    let key = match conf.key(m.user) {
        Some(k) => k,
        None => return None,
    };
    if conf.port_by_resource_id(m.resource).is_none() {
        return None;
    }
    if !m.verify(&key, Operation::Knock, m.user, m.resource, None) {
        return None;
    }
    let mut c = Message::with_salt(Operation::Challenge, m.user, m.resource, salt);
    let mut i: usize = 0;
    while i < 16
        invariant
            i <= 16,
            c.operation == Operation::Challenge,
            c.user == m.user,
            c.resource == m.resource,
            c.salt == salt,
            forall|j: int| 0 <= j < i ==> c.payload@[j] == nonce@[j],
            forall|j: int| 16 <= j < 32 ==> c.payload@[j] == 0,
        decreases 16 - i,
    {
        c.payload[i] = nonce[i];
        i = i + 1;
    }
    assert(c.payload@ =~= challenge_payload(nonce));
    assert(knock_accepted(*conf, m));
    c.sign_no_challenge(&key);
    Some(c)
}

/// Decides on a received response to `challenge`. The answer is the port to
/// open; `None` means to close without a reply.
pub fn server_on_response(conf: &Config, challenge: &Message, b: &[u8]) -> (r: Option<u16>)
    ensures
        r is Some <==> decode_error(b@) is None && exists|m: Message|
            encoding(m) == b@ && #[trigger] response_accepted(*conf, *challenge, m),
        r is Some ==> r == port_of_resource(conf.resources@, challenge.resource),
{
    let m = match Message::decode(b) {
        Ok(m) => m,
        Err(_) => return None,
    };
    proof {
        crate::wire::lemma_decode_encode(m);
    }
    let key = match conf.key(challenge.user) {
        Some(k) => k,
        None => return None,
    };
    let port = match conf.port_by_resource_id(challenge.resource) {
        Some(p) => p,
        None => return None,
    };
    if !m.verify(&key, Operation::Response, challenge.user, challenge.resource, Some(challenge)) {
        return None;
    }
    assert(response_accepted(*conf, *challenge, m));
    Some(port)
}

/// The server's last message: `ComeIn` when the port was opened, else
/// `GoAway`, bound to the challenge and signed with `key`.
pub fn server_reply(key: &Key, challenge: &Message, opened: bool, salt: [u8; 16]) -> (r: Message)
    ensures
        r.operation == (if opened {
            Operation::ComeIn
        } else {
            Operation::GoAway
        }),
        r.user == challenge.user,
        r.resource == challenge.resource,
        r.salt == salt,
        r.payload@ == Seq::new(32, |i: int| 0u8),
        r.auth@ == expected_auth(r, *key, Some(*challenge)),
{
    let op = if opened {
        Operation::ComeIn
    } else {
        Operation::GoAway
    };
    let mut r = Message::with_salt(op, challenge.user, challenge.resource, salt);
    r.sign_with_challenge(key, challenge);
    r
}

/// What a client makes of the reply `b` when it awaits one of kind `op`.
pub open spec fn reply_outcome(b: Seq<u8>, key: Key, op: Operation, challenge: Option<Message>) -> Result<
    Message,
    ProtocolError,
> {
    if decode_error(b) is Some {
        Err(ProtocolError::Malformed(decode_error(b).unwrap()))
    } else {
        let m = choose|m: Message| encoding(m) == b;
        if op == Operation::ComeIn && m.operation == Operation::GoAway {
            Err(ProtocolError::Denied)
        } else if m.operation != op {
            Err(ProtocolError::UnexpectedOperation(m.operation))
        } else if !reply_authentic(m, key, op, challenge) {
            Err(ProtocolError::BadAuthenticator)
        } else {
            Ok(m)
        }
    }
}

/// Reads a reply of kind `op` from `b`, checked against `key` (and bound to
/// `challenge` when there is one).
pub fn client_receive(b: &[u8], key: &Key, op: Operation, challenge: Option<&Message>) -> (r: Result<
    Message,
    ProtocolError,
>)
    ensures
        r == reply_outcome(
            b@,
            *key,
            op,
            match challenge {
                Some(c) => Some(*c),
                None => None,
            },
        ),
{
    let m = match Message::decode(b) {
        Ok(m) => m,
        Err(e) => return Err(ProtocolError::Malformed(e)),
    };
    proof {
        crate::wire::lemma_decode_encode(m);
    }
    proof {
        crate::wire::lemma_encoding_injective(m, choose|d: Message| encoding(d) == b@);
    }
    if op == Operation::ComeIn && m.operation == Operation::GoAway {
        return Err(ProtocolError::Denied);
    }
    if m.operation != op {
        return Err(ProtocolError::UnexpectedOperation(m.operation));
    }
    if !m.verify(key, op, m.user, m.resource, challenge) {
        return Err(ProtocolError::BadAuthenticator);
    }
    Ok(m)
}

/// The same knock, sent again byte for byte, is answered with a challenge
/// that carries the new nonce: two answers drawn with different nonces differ.
pub proof fn lemma_replayed_knock_fresh(
    conf: Config,
    m: Message,
    n1: [u8; 16],
    n2: [u8; 16],
    s1: [u8; 16],
    s2: [u8; 16],
    c1: Message,
    c2: Message,
)
    requires
        challenge_for(conf, m, n1, s1, c1),
        challenge_for(conf, m, n2, s2, c2),
        n1 != n2,
    ensures
        c1.payload@.subrange(0, 16) == n1@,
        c2.payload@.subrange(0, 16) == n2@,
        c1 != c2,
{
    assert(c1.payload@.subrange(0, 16) =~= n1@);
    assert(c2.payload@.subrange(0, 16) =~= n2@);
    if n1@ == n2@ {
        assert(n1 =~= n2);
    }
}

/// A response that passed for one challenge passes for another challenge
/// with a different payload only where the key gives both inputs, which
/// differ, one authenticator: a collision of HMAC-SHA3-256.
pub proof fn lemma_replayed_response(conf: Config, ch1: Message, ch2: Message, m: Message)
    requires
        ch1.user == ch2.user,
        ch1.resource == ch2.resource,
        ch1.payload != ch2.payload,
        response_accepted(conf, ch1, m),
        response_accepted(conf, ch2, m),
    ensures
        ({
            let k = key_of(conf.keys@, ch1.user).unwrap();
            &&& crate::auth::mac_input(m, Some(ch1)) != crate::auth::mac_input(m, Some(ch2))
            &&& expected_auth(m, k, Some(ch1)) == expected_auth(m, k, Some(ch2))
        }),
{
    let i1 = crate::auth::mac_input(m, Some(ch1));
    let i2 = crate::auth::mac_input(m, Some(ch2));
    if i1 == i2 {
        assert(i1.subrange(0, 32) =~= ch1.payload@);
        assert(i2.subrange(0, 32) =~= ch2.payload@);
        assert(ch1.payload =~= ch2.payload);
    }
}

} // verus!
