//! Authenticators: HMAC-SHA3-256 over a message's fields, with or without a
//! challenge, and their constant-time check.

use crate::wire::{signed_part, Message, Operation};
use hmac::{Hmac, Mac};
use sha3::Sha3_256;
use vstd::prelude::*;

verus! {

/// A user's shared secret.
pub type Key = [u8; 32];

/// The HMAC-SHA3-256 tag of `data` under `key`.
pub uninterp spec fn hmac_sha3_256(key: Seq<u8>, data: Seq<u8>) -> Seq<u8>;

/// Relies on `hmac::Hmac<sha3::Sha3_256>` (through `Mac::new_from_slice`,
/// `update`, `finalize`): the 32-byte tag of `data` under `key`, which depends
/// on the two byte strings alone. `new_from_slice` accepts a key of any length.
#[verifier::external_body]
fn hmac_sha3(key: &Key, data: &[u8]) -> (r: [u8; 32])
    ensures
        r@ == hmac_sha3_256(key@, data@),
{
    let mut mac = <Hmac<Sha3_256> as Mac>::new_from_slice(key).expect("HMAC takes any key length");
    mac.update(data);
    mac.finalize().into_bytes().into()
}

/// What an authenticator covers: the challenge's payload, when there is one,
/// then the message's own fields.
pub open spec fn mac_input(m: Message, challenge: Option<Message>) -> Seq<u8> {
    match challenge {
        Some(c) => c.payload@ + signed_part(m),
        None => signed_part(m),
    }
}

/// The authenticator that `key` gives `m`.
pub open spec fn expected_auth(m: Message, key: Key, challenge: Option<Message>) -> Seq<u8> {
    hmac_sha3_256(key@, mac_input(m, challenge))
}

/// Whether `m` is what a holder of `key` sent for `op`, `user` and `resource`.
pub open spec fn verifies(
    m: Message,
    key: Key,
    op: Operation,
    user: u32,
    resource: u32,
    challenge: Option<Message>,
) -> bool {
    &&& m.operation == op
    &&& m.user == user
    &&& m.resource == resource
    &&& m.auth@ == expected_auth(m, key, challenge)
}

/// Compares two authenticators in time that does not depend on where they differ.
pub fn ct_eq(a: &[u8; 32], b: &[u8; 32]) -> (r: bool)
    ensures
        r == (a@ == b@),
{
    let mut diff: u8 = 0;
    let mut i: usize = 0;
    while i < 32
        invariant
            i <= 32,
            (diff == 0) == (forall|j: int| 0 <= j < i ==> a@[j] == b@[j]),
        decreases 32 - i,
    {
        let x = a[i];
        let y = b[i];
        let d = diff;
        assert(((d | (x ^ y)) == 0) == (d == 0 && x == y)) by (bit_vector);
        diff = d | (x ^ y);
        i = i + 1;
    }
    if diff == 0 {
        assert(a@ =~= b@);
    }
    diff == 0
}

impl Message {
    /// Signs the message's own fields with `key`.
    pub fn sign_no_challenge(&mut self, key: &Key)
        ensures
            final(self).operation == old(self).operation,
            final(self).user == old(self).user,
            final(self).resource == old(self).resource,
            final(self).salt == old(self).salt,
            final(self).payload == old(self).payload,
            final(self).auth@ == expected_auth(*old(self), *key, None),
    {
        let data = self.signed_bytes();
        self.auth = hmac_sha3(key, data.as_slice());
    }

    /// Signs the challenge's payload together with the message's own fields.
    pub fn sign_with_challenge(&mut self, key: &Key, challenge: &Message)
        ensures
            final(self).operation == old(self).operation,
            final(self).user == old(self).user,
            final(self).resource == old(self).resource,
            final(self).salt == old(self).salt,
            final(self).payload == old(self).payload,
            final(self).auth@ == expected_auth(*old(self), *key, Some(*challenge)),
    {
        let mut data: Vec<u8> = Vec::new();
        let mut i: usize = 0;
        while i < 32
            invariant
                i <= 32,
                data@ == challenge.payload@.subrange(0, i as int),
            decreases 32 - i,
        {
            data.push(challenge.payload[i]);
            i = i + 1;
            assert(data@ =~= challenge.payload@.subrange(0, i as int));
        }
        let own = self.signed_bytes();
        let mut j: usize = 0;
        while j < own.len()
            invariant
                j <= own@.len(),
                data@ == challenge.payload@ + own@.subrange(0, j as int),
            decreases own@.len() - j,
        {
            data.push(own[j]);
            j = j + 1;
            assert(data@ =~= challenge.payload@ + own@.subrange(0, j as int));
        }
        assert(own@.subrange(0, j as int) =~= own@);
        assert(challenge.payload@.subrange(0, 32) =~= challenge.payload@);
        self.auth = hmac_sha3(key, data.as_slice());
    }

    /// Checks the message against the expected operation, user and resource,
    /// and its authenticator against the one that `key` gives it.
    pub fn verify(
        &self,
        key: &Key,
        op: Operation,
        user: u32,
        resource: u32,
        challenge: Option<&Message>,
    ) -> (r: bool)
        ensures
            r == verifies(
                *self,
                *key,
                op,
                user,
                resource,
                match challenge {
                    Some(c) => Some(*c),
                    None => None,
                },
            ),
    {
        let mut expected = *self;
        match challenge {
            Some(c) => expected.sign_with_challenge(key, c),
            None => expected.sign_no_challenge(key),
        }
        let same = ct_eq(&self.auth, &expected.auth);
        self.operation == op && self.user == user && self.resource == resource && same
    }
}

/// Of two messages that agree on every field before the authenticator, the
/// one that carries the authenticator `key` gives those fields passes the
/// check for its own operation, user and resource, and any other fails it.
pub proof fn lemma_sign_verify(m: Message, s: Message, key: Key, challenge: Option<Message>)
    requires
        s.operation == m.operation,
        s.user == m.user,
        s.resource == m.resource,
        s.salt == m.salt,
        s.payload == m.payload,
    ensures
        verifies(s, key, m.operation, m.user, m.resource, challenge) <==> s.auth@ == expected_auth(
            m,
            key,
            challenge,
        ),
{
    assert(signed_part(s) == signed_part(m));
}

} // verus!
