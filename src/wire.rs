//! The fixed-layout wire message and its big-endian codec.

use vstd::prelude::*;

verus! {

/// Constant that opens every message.
pub const MAGIC: u32 = 0x3B1FB7E5;

/// Length in bytes of every encoded message.
pub const MSG_SIZE: usize = 96;

/// Length of the random salt.
pub const SALT_SIZE: usize = 16;

/// Length of the payload field.
pub const PAYLOAD_SIZE: usize = 32;

/// Length of an authenticator (HMAC-SHA3-256 output).
pub const AUTH_SIZE: usize = 32;

/// Length of the challenge nonce carried at the start of the payload.
pub const NONCE_SIZE: usize = 16;

/// The step of the handshake that a message stands for.
#[derive(Clone, Copy, Debug, PartialEq, Eq, Structural)]
pub enum Operation {
    Knock,
    Challenge,
    Response,
    ComeIn,
    GoAway,
}

/// Why a byte sequence is not a message.
#[derive(Clone, Copy, Debug, PartialEq, Eq, Structural)]
pub enum DecodeError {
    WrongLength,
    BadMagic,
    UnknownOperation,
}

/// One protocol message.
#[derive(Clone, Copy, Debug, PartialEq, Eq)]
pub struct Message {
    pub operation: Operation,
    pub user: u32,
    pub resource: u32,
    pub salt: [u8; 16],
    pub payload: [u8; 32],
    pub auth: [u8; 32],
}

/// Wire code of an operation.
pub open spec fn op_code(op: Operation) -> u32 {
    match op {
        Operation::Knock => 1,
        Operation::Challenge => 2,
        Operation::Response => 3,
        Operation::ComeIn => 4,
        Operation::GoAway => 5,
    }
}

/// Operation of a wire code, if it names one.
pub open spec fn op_of_code(c: u32) -> Option<Operation> {
    if c == 1 {
        Some(Operation::Knock)
    } else if c == 2 {
        Some(Operation::Challenge)
    } else if c == 3 {
        Some(Operation::Response)
    } else if c == 4 {
        Some(Operation::ComeIn)
    } else if c == 5 {
        Some(Operation::GoAway)
    } else {
        None
    }
}

/// The four big-endian bytes of `x`.
pub open spec fn be32(x: u32) -> Seq<u8> {
    seq![(x >> 24u32) as u8, (x >> 16u32) as u8, (x >> 8u32) as u8, x as u8]
}

/// The big-endian `u32` held by `s[i .. i + 4]`.
pub open spec fn u32_at(s: Seq<u8>, i: int) -> u32 {
    ((s[i] as u32) << 24u32) | ((s[i + 1] as u32) << 16u32) | ((s[i + 2] as u32) << 8u32) | (
    s[i + 3] as u32)
}

/// The bytes that an authenticator covers: every field before it.
pub open spec fn signed_part(m: Message) -> Seq<u8> {
    be32(MAGIC) + be32(op_code(m.operation)) + be32(m.user) + be32(m.resource) + m.salt@
        + m.payload@
}

/// The full encoding of a message.
pub open spec fn encoding(m: Message) -> Seq<u8> {
    signed_part(m) + m.auth@
}

/// Whether `b` is the encoding of some message.
pub open spec fn is_wellformed(b: Seq<u8>) -> bool {
    &&& b.len() == MSG_SIZE
    &&& b.subrange(0, 4) == be32(MAGIC)
    &&& op_of_code(u32_at(b, 4)) is Some
}

/// The outcome of decoding `b`, error by error.
pub open spec fn decode_error(b: Seq<u8>) -> Option<DecodeError> {
    if b.len() != MSG_SIZE {
        Some(DecodeError::WrongLength)
    } else if b.subrange(0, 4) != be32(MAGIC) {
        Some(DecodeError::BadMagic)
    } else if op_of_code(u32_at(b, 4)) is None {
        Some(DecodeError::UnknownOperation)
    } else {
        None
    }
}

proof fn lemma_be32_round(x: u32)
    ensures
        u32_at(be32(x), 0) == x,
{
    let b0 = (x >> 24u32) as u8;
    let b1 = (x >> 16u32) as u8;
    let b2 = (x >> 8u32) as u8;
    let b3 = x as u8;
    assert(((b0 as u32) << 24u32) | ((b1 as u32) << 16u32) | ((b2 as u32) << 8u32) | (b3 as u32)
        == x) by (bit_vector)
        requires
            b0 == (x >> 24u32) as u8,
            b1 == (x >> 16u32) as u8,
            b2 == (x >> 8u32) as u8,
            b3 == x as u8,
    ;
}

proof fn lemma_u32_at_round(s: Seq<u8>, i: int)
    requires
        0 <= i,
        i + 4 <= s.len(),
    ensures
        be32(u32_at(s, i)) == s.subrange(i, i + 4),
{
    let b0 = s[i];
    let b1 = s[i + 1];
    let b2 = s[i + 2];
    let b3 = s[i + 3];
    let x = u32_at(s, i);
    assert(x == ((b0 as u32) << 24u32) | ((b1 as u32) << 16u32) | ((b2 as u32) << 8u32) | (
    b3 as u32));
    assert((x >> 24u32) as u8 == b0 && (x >> 16u32) as u8 == b1 && (x >> 8u32) as u8 == b2
        && x as u8 == b3) by (bit_vector)
        requires
            x == ((b0 as u32) << 24u32) | ((b1 as u32) << 16u32) | ((b2 as u32) << 8u32) | (
            b3 as u32),
    ;
    assert(be32(x) =~= s.subrange(i, i + 4));
}

proof fn lemma_op_code(op: Operation)
    ensures
        op_of_code(op_code(op)) == Some(op),
{
}

/// Splits an encoding back into its fields.
proof fn lemma_encoding_fields(m: Message)
    ensures
        encoding(m).len() == MSG_SIZE,
        encoding(m).subrange(0, 4) == be32(MAGIC),
        u32_at(encoding(m), 4) == op_code(m.operation),
        u32_at(encoding(m), 8) == m.user,
        u32_at(encoding(m), 12) == m.resource,
        encoding(m).subrange(16, 32) == m.salt@,
        encoding(m).subrange(32, 64) == m.payload@,
        encoding(m).subrange(64, 96) == m.auth@,
{
    let e = encoding(m);
    assert(e.subrange(0, 4) =~= be32(MAGIC));
    assert(e.subrange(4, 8) =~= be32(op_code(m.operation)));
    assert(e.subrange(8, 12) =~= be32(m.user));
    assert(e.subrange(12, 16) =~= be32(m.resource));
    assert(e.subrange(16, 32) =~= m.salt@);
    assert(e.subrange(32, 64) =~= m.payload@);
    assert(e.subrange(64, 96) =~= m.auth@);
    lemma_be32_round(op_code(m.operation));
    lemma_be32_round(m.user);
    lemma_be32_round(m.resource);
    assert(u32_at(e, 4) == u32_at(be32(op_code(m.operation)), 0));
    assert(u32_at(e, 8) == u32_at(be32(m.user), 0));
    assert(u32_at(e, 12) == u32_at(be32(m.resource), 0));
}

/// No two messages share an encoding.
pub proof fn lemma_encoding_injective(m1: Message, m2: Message)
    requires
        encoding(m1) == encoding(m2),
    ensures
        m1 == m2,
{
    lemma_encoding_fields(m1);
    lemma_encoding_fields(m2);
    lemma_op_code(m1.operation);
    lemma_op_code(m2.operation);
    assert(m1.salt@ == m2.salt@);
    assert(m1.payload@ == m2.payload@);
    assert(m1.auth@ == m2.auth@);
    assert(m1.salt =~= m2.salt);
    assert(m1.payload =~= m2.payload);
    assert(m1.auth =~= m2.auth);
}

/// Decoding an encoded message gives that message back.
pub proof fn lemma_decode_encode(m: Message)
    ensures
        decode_error(encoding(m)) is None,
        forall|d: Message| #[trigger] encoding(d) == encoding(m) ==> d == m,
{
    lemma_encoding_fields(m);
    lemma_op_code(m.operation);
    assert forall|d: Message| #[trigger] encoding(d) == encoding(m) implies d == m by {
        lemma_encoding_injective(d, m);
    }
}

fn push_be32(out: &mut Vec<u8>, x: u32)
    ensures
        final(out)@ == old(out)@ + be32(x),
{
    out.push((x >> 24u32) as u8);
    out.push((x >> 16u32) as u8);
    out.push((x >> 8u32) as u8);
    out.push(x as u8);
    assert(final(out)@ =~= old(out)@ + be32(x));
}

fn read_be32(b: &[u8], i: usize) -> (r: u32)
    requires
        i + 4 <= b@.len(),
    ensures
        r == u32_at(b@, i as int),
{
    ((b[i] as u32) << 24u32) | ((b[i + 1] as u32) << 16u32) | ((b[i + 2] as u32) << 8u32) | (b[i
        + 3] as u32)
}

fn push_bytes(out: &mut Vec<u8>, s: &[u8])
    ensures
        final(out)@ == old(out)@ + s@,
{
    let mut i: usize = 0;
    while i < s.len()
        invariant
            i <= s@.len(),
            out@ == old(out)@ + s@.subrange(0, i as int),
        decreases s@.len() - i,
    {
        out.push(s[i]);
        i = i + 1;
        assert(out@ =~= old(out)@ + s@.subrange(0, i as int));
    }
    assert(s@.subrange(0, i as int) =~= s@);
}

impl Operation {
    /// The wire code of this operation.
    pub fn code(&self) -> (r: u32)
        ensures
            r == op_code(*self),
    {
        match self {
            Operation::Knock => 1,
            Operation::Challenge => 2,
            Operation::Response => 3,
            Operation::ComeIn => 4,
            Operation::GoAway => 5,
        }
    }

    /// The operation that a wire code names, if any.
    pub fn from_code(c: u32) -> (r: Option<Operation>)
        ensures
            r == op_of_code(c),
    {
        if c == 1 {
            Some(Operation::Knock)
        } else if c == 2 {
            Some(Operation::Challenge)
        } else if c == 3 {
            Some(Operation::Response)
        } else if c == 4 {
            Some(Operation::ComeIn)
        } else if c == 5 {
            Some(Operation::GoAway)
        } else {
            None
        }
    }
}

impl Message {
    /// A message with the given salt, a zero payload and a zero authenticator.
    pub fn with_salt(operation: Operation, user: u32, resource: u32, salt: [u8; 16]) -> (r: Message)
        ensures
            r.operation == operation,
            r.user == user,
            r.resource == resource,
            r.salt == salt,
            r.payload@ == Seq::new(32, |i: int| 0u8),
            r.auth@ == Seq::new(32, |i: int| 0u8),
    {
        let r = Message { operation, user, resource, salt, payload: [0u8; 32], auth: [0u8; 32] };
        assert(r.payload@ =~= Seq::new(32, |i: int| 0u8));
        assert(r.auth@ =~= Seq::new(32, |i: int| 0u8));
        r
    }

    /// The bytes that the authenticator covers.
    pub fn signed_bytes(&self) -> (r: Vec<u8>)
        ensures
            r@ == signed_part(*self),
    {
        let mut out: Vec<u8> = Vec::new();
        push_be32(&mut out, MAGIC);
        push_be32(&mut out, self.operation.code());
        push_be32(&mut out, self.user);
        push_be32(&mut out, self.resource);
        push_bytes(&mut out, self.salt.as_slice());
        push_bytes(&mut out, self.payload.as_slice());
        out
    }

    /// The wire encoding of this message.
    pub fn encode(&self) -> (r: Vec<u8>)
        ensures
            r@ == encoding(*self),
            r@.len() == MSG_SIZE,
    {
        let mut out = self.signed_bytes();
        push_bytes(&mut out, self.auth.as_slice());
        proof {
            lemma_encoding_fields(*self);
        }
        out
    }

    /// Parses a message from its wire encoding.
    pub fn decode(b: &[u8]) -> (r: Result<Message, DecodeError>)
        ensures
            match r {
                Ok(m) => decode_error(b@) is None && encoding(m) == b@,
                Err(e) => decode_error(b@) == Some(e),
            },
    {
        if b.len() != MSG_SIZE {
            return Err(DecodeError::WrongLength);
        }
        let magic = read_be32(b, 0);
        proof {
            lemma_u32_at_round(b@, 0);
            lemma_be32_round(MAGIC);
        }
        if magic != MAGIC {
            return Err(DecodeError::BadMagic);
        }
        let operation = match Operation::from_code(read_be32(b, 4)) {
            Some(op) => op,
            None => return Err(DecodeError::UnknownOperation),
        };
        let user = read_be32(b, 8);
        let resource = read_be32(b, 12);
        let mut salt = [0u8; 16];
        let mut payload = [0u8; 32];
        let mut auth = [0u8; 32];
        let mut i: usize = 0;
        while i < 16
            invariant
                i <= 16,
                b@.len() == MSG_SIZE,
                forall|j: int| 0 <= j < i ==> salt@[j] == b@[16 + j],
            decreases 16 - i,
        {
            salt[i] = b[16 + i];
            i = i + 1;
        }
        let mut i: usize = 0;
        while i < 32
            invariant
                i <= 32,
                b@.len() == MSG_SIZE,
                forall|j: int| 0 <= j < i ==> payload@[j] == b@[32 + j],
                forall|j: int| 0 <= j < i ==> auth@[j] == b@[64 + j],
            decreases 32 - i,
        {
            payload[i] = b[32 + i];
            auth[i] = b[64 + i];
            i = i + 1;
        }
        let m = Message { operation, user, resource, salt, payload, auth };
        proof {
            lemma_encoding_fields(m);
            lemma_u32_at_round(b@, 4);
            lemma_u32_at_round(b@, 8);
            lemma_u32_at_round(b@, 12);
            lemma_be32_round(op_code(operation));
            assert(m.salt@ =~= b@.subrange(16, 32));
            assert(m.payload@ =~= b@.subrange(32, 64));
            assert(m.auth@ =~= b@.subrange(64, 96));
            let e = encoding(m);
            assert(e.subrange(4, 8) == b@.subrange(4, 8)) by {
                lemma_u32_at_round(e, 4);
            }
            assert(e.subrange(8, 12) == b@.subrange(8, 12)) by {
                lemma_u32_at_round(e, 8);
            }
            assert(e.subrange(12, 16) == b@.subrange(12, 16)) by {
                lemma_u32_at_round(e, 12);
            }
            assert forall|j: int| 0 <= j < 96 implies e[j] == b@[j] by {
                if j < 4 {
                    assert(e[j] == e.subrange(0, 4)[j]);
                    assert(b@[j] == b@.subrange(0, 4)[j]);
                } else if j < 8 {
                    assert(e[j] == e.subrange(4, 8)[j - 4]);
                    assert(b@[j] == b@.subrange(4, 8)[j - 4]);
                } else if j < 12 {
                    assert(e[j] == e.subrange(8, 12)[j - 8]);
                    assert(b@[j] == b@.subrange(8, 12)[j - 8]);
                } else if j < 16 {
                    assert(e[j] == e.subrange(12, 16)[j - 12]);
                    assert(b@[j] == b@.subrange(12, 16)[j - 12]);
                } else if j < 32 {
                    assert(e[j] == e.subrange(16, 32)[j - 16]);
                } else if j < 64 {
                    assert(e[j] == e.subrange(32, 64)[j - 32]);
                } else {
                    assert(e[j] == e.subrange(64, 96)[j - 64]);
                }
            }
            assert(e =~= b@);
        }
        Ok(m)
    }
}

} // verus!
