//! Reading the values of the configuration file: hexadecimal identifiers,
//! keys, ports, and the entry of each section.

use crate::auth::Key;
use crate::config::{key_of, port_of_resource, resource_of_port, Config};
use crate::firewall::{family_of, parse_family};
use vstd::prelude::*;

verus! {

/// Why a configuration entry was refused.
#[derive(Clone, Copy, Debug, PartialEq, Eq, Structural)]
pub enum ConfigError {
    /// The value is not of the form that the entry takes.
    BadValue,
    /// A user, resource or port is given twice.
    Duplicate,
}

/// The value of a hexadecimal digit.
pub open spec fn hex_digit(c: char) -> Option<nat> {
    if '0' <= c && c <= '9' {
        Some((c as nat - '0' as nat) as nat)
    } else if 'a' <= c && c <= 'f' {
        Some((c as nat - 'a' as nat + 10) as nat)
    } else if 'A' <= c && c <= 'F' {
        Some((c as nat - 'A' as nat + 10) as nat)
    } else {
        None
    }
}

/// The value of a decimal digit.
pub open spec fn dec_digit(c: char) -> Option<nat> {
    if '0' <= c && c <= '9' {
        Some((c as nat - '0' as nat) as nat)
    } else {
        None
    }
}

pub open spec fn all_hex(s: Seq<char>) -> bool {
    forall|i: int| 0 <= i < s.len() ==> (#[trigger] hex_digit(s[i])) is Some
}

pub open spec fn all_dec(s: Seq<char>) -> bool {
    forall|i: int| 0 <= i < s.len() ==> (#[trigger] dec_digit(s[i])) is Some
}

/// The number that the hexadecimal digits `s` write.
pub open spec fn hex_value(s: Seq<char>) -> nat
    decreases s.len(),
{
    if s.len() == 0 {
        0
    } else {
        hex_value(s.drop_last()) * 16 + hex_digit(s.last()).unwrap_or(0)
    }
}

/// The number that the decimal digits `s` write.
pub open spec fn dec_value(s: Seq<char>) -> nat
    decreases s.len(),
{
    if s.len() == 0 {
        0
    } else {
        dec_value(s.drop_last()) * 10 + dec_digit(s.last()).unwrap_or(0)
    }
}

/// The byte that the two hexadecimal digits at `2 * i` write.
pub open spec fn key_byte(s: Seq<char>, i: int) -> nat {
    hex_digit(s[2 * i]).unwrap() * 16 + hex_digit(s[2 * i + 1]).unwrap()
}

/// Whether `s` is `port:` followed by a decimal port number.
pub open spec fn port_prefix(s: Seq<char>) -> bool {
    &&& s.len() >= 5
    &&& s[0] == 'p'
    &&& s[1] == 'o'
    &&& s[2] == 'r'
    &&& s[3] == 't'
    &&& s[4] == ':'
}

pub open spec fn dec_u16_of(s: Seq<char>) -> Option<u16> {
    if 1 <= s.len() <= 5 && all_dec(s) && dec_value(s) <= 0xffff {
        Some(dec_value(s) as u16)
    } else {
        None
    }
}

pub open spec fn hex_u32_of(s: Seq<char>) -> Option<u32> {
    if 1 <= s.len() <= 8 && all_hex(s) {
        Some(hex_value(s) as u32)
    } else {
        None
    }
}

pub open spec fn resource_port_of(s: Seq<char>) -> Option<u16> {
    if port_prefix(s) {
        dec_u16_of(s.subrange(5, s.len() as int))
    } else {
        None
    }
}

pub open spec fn key_text_ok(s: Seq<char>) -> bool {
    s.len() == 64 && all_hex(s)
}

fn hex_digit_of(c: char) -> (r: Option<u8>)
    ensures
        match hex_digit(c) {
            Some(v) => r == Some(v as u8) && v < 16,
            None => r is None,
        },
{
    if '0' <= c && c <= '9' {
        Some((c as u32 - '0' as u32) as u8)
    } else if 'a' <= c && c <= 'f' {
        Some((c as u32 - 'a' as u32 + 10) as u8)
    } else if 'A' <= c && c <= 'F' {
        Some((c as u32 - 'A' as u32 + 10) as u8)
    } else {
        None
    }
}

/// Reads a user or resource identifier: one to eight hexadecimal digits.
pub fn parse_hex_u32(s: &str) -> (r: Option<u32>)
    ensures
        r == hex_u32_of(s@),
{
    let n = s.unicode_len();
    if n < 1 || n > 8 {
        return None;
    }
    let mut v: u32 = 0;
    let mut i: usize = 0;
    while i < n
        invariant
            n == s@.len(),
            1 <= n <= 8,
            i <= n,
            all_hex(s@.subrange(0, i as int)),
            v as nat == hex_value(s@.subrange(0, i as int)),
            v < pow16(i as nat),
        decreases n - i,
    {
        let c = s.get_char(i);
        let d = match hex_digit_of(c) {
            Some(d) => d,
            None => {
                assert(!all_hex(s@));
                return None;
            },
        };
        proof {
            lemma_pow16_step(i as nat);
            lemma_pow16_bound(i as nat);
            assert(v * 16 + d < pow16((i + 1) as nat)) by (nonlinear_arith)
                requires
                    v < pow16(i as nat),
                    d < 16,
                    pow16((i + 1) as nat) == pow16(i as nat) * 16,
            ;
            let t = s@.subrange(0, i + 1);
            assert(t.drop_last() =~= s@.subrange(0, i as int));
        }
        v = v * 16 + d as u32;
        i = i + 1;
        assert(all_hex(s@.subrange(0, i as int)));
    }
    assert(s@.subrange(0, n as int) =~= s@);
    Some(v)
}

pub open spec fn pow16(n: nat) -> nat
    decreases n,
{
    if n == 0 {
        1
    } else {
        16 * pow16((n - 1) as nat)
    }
}

proof fn lemma_pow16_step(n: nat)
    ensures
        pow16(n + 1) == pow16(n) * 16,
{
}

proof fn lemma_pow16_bound(n: nat)
    requires
        n < 8,
    ensures
        pow16(n + 1) <= 0x1_0000_0000,
    decreases n,
{
    if n > 0 {
        lemma_pow16_bound((n - 1) as nat);
    }
    assert(pow16(0) == 1);
    assert(pow16(1) == 16);
    assert(pow16(2) == 256);
    assert(pow16(3) == 4096);
    assert(pow16(4) == 65536);
    assert(pow16(5) == 1048576);
    assert(pow16(6) == 16777216);
    assert(pow16(7) == 268435456);
    assert(pow16(8) == 0x1_0000_0000);
    if n + 1 < 8 {
        lemma_pow16_mono(n + 1, 8);
    }
}

proof fn lemma_pow16_mono(a: nat, b: nat)
    requires
        a <= b,
    ensures
        pow16(a) <= pow16(b),
    decreases b - a,
{
    if a < b {
        lemma_pow16_mono(a, (b - 1) as nat);
    }
}

/// Reads a port number: one to five decimal digits, at most 65535.
pub fn parse_dec_u16(s: &str) -> (r: Option<u16>)
    ensures
        r == dec_u16_of(s@),
{
    let n = s.unicode_len();
    if n < 1 || n > 5 {
        return None;
    }
    let mut v: u32 = 0;
    let mut i: usize = 0;
    while i < n
        invariant
            n == s@.len(),
            1 <= n <= 5,
            i <= n,
            all_dec(s@.subrange(0, i as int)),
            v as nat == dec_value(s@.subrange(0, i as int)),
            v <= 0xffff,
        decreases n - i,
    {
        let c = s.get_char(i);
        if !('0' <= c && c <= '9') {
            assert(!all_dec(s@)) by {
                assert(dec_digit(s@[i as int]) is None);
            }
            return None;
        }
        let d = (c as u32 - '0' as u32);
        let nv = v * 10 + d;
        let t = Ghost(s@.subrange(0, i + 1));
        proof {
            assert(t@.drop_last() =~= s@.subrange(0, i as int));
        }
        if nv > 0xffff {
            proof {
                lemma_dec_prefix_bound(s@, i + 1);
            }
            return None;
        }
        v = nv;
        i = i + 1;
        assert(all_dec(s@.subrange(0, i as int)));
    }
    assert(s@.subrange(0, n as int) =~= s@);
    Some(v as u16)
}

/// A decimal number is at least the number its leading digits write.
proof fn lemma_dec_prefix_bound(s: Seq<char>, k: int)
    requires
        0 <= k <= s.len(),
    ensures
        dec_value(s.subrange(0, k)) <= dec_value(s),
    decreases s.len() - k,
{
    if k < s.len() {
        lemma_dec_prefix_bound(s.drop_last(), k);
        assert(s.drop_last().subrange(0, k) =~= s.subrange(0, k));
        if s.len() > 0 {
            assert(dec_value(s) == dec_value(s.drop_last()) * 10 + dec_digit(s.last()).unwrap_or(0));
        }
    } else {
        assert(s.subrange(0, k) =~= s);
    }
}

/// Reads a resource's value: `port:` and a port number.
pub fn parse_resource_port(s: &str) -> (r: Option<u16>)
    ensures
        r == resource_port_of(s@),
{
    let n = s.unicode_len();
    if n < 5 {
        return None;
    }
    if !(s.get_char(0) == 'p' && s.get_char(1) == 'o' && s.get_char(2) == 'r' && s.get_char(3)
        == 't' && s.get_char(4) == ':') {
        return None;
    }
    parse_dec_u16(s.substring_char(5, n))
}

/// Reads a key: 64 hexadecimal digits, two to a byte.
pub fn parse_key(s: &str) -> (r: Option<Key>)
    ensures
        r is Some <==> key_text_ok(s@),
        r is Some ==> forall|i: int| 0 <= i < 32 ==> r.unwrap()@[i] as nat == key_byte(s@, i),
{
    let n = s.unicode_len();
    if n != 64 {
        return None;
    }
    let mut k: Key = [0u8; 32];
    let mut i: usize = 0;
    while i < 32
        invariant
            n == s@.len() == 64,
            i <= 32,
            forall|j: int| 0 <= j < 2 * i ==> (#[trigger] hex_digit(s@[j])) is Some,
            forall|j: int| 0 <= j < i ==> k@[j] as nat == key_byte(s@, j),
        decreases 32 - i,
    {
        let hi = match hex_digit_of(s.get_char(2 * i)) {
            Some(d) => d,
            None => return None,
        };
        let lo = match hex_digit_of(s.get_char(2 * i + 1)) {
            Some(d) => d,
            None => return None,
        };
        k[i] = hi * 16 + lo;
        i = i + 1;
    }
    Some(k)
}

impl Config {
    /// A configuration with no keys and no resources.
    pub fn empty() -> (r: Config)
        ensures
            r.port == 0,
            r.default_user == 0,
            r.keys@.len() == 0,
            r.resources@.len() == 0,
            r.nft_family@.len() == 0,
            r.nft_table@.len() == 0,
            r.nft_chain_input@.len() == 0,
    {
        Config {
            port: 0,
            default_user: 0,
            keys: Vec::new(),
            resources: Vec::new(),
            nft_family: String::new(),
            nft_table: String::new(),
            nft_chain_input: String::new(),
        }
    }

    /// Takes one `name = value` entry of the section `section`. Entries that
    /// the server and the client do not read are passed over.
    pub fn set_entry(&mut self, section: &str, name: &str, value: &str) -> (r: Result<(), ConfigError>)
        ensures
            entry_effect(*old(self), *final(self), section@, name@, value@, r),
    {
        if text_is(section, "GENERAL") && text_is(name, "port") {
            match parse_dec_u16(value) {
                Some(p) => {
                    self.port = p;
                    Ok(())
                },
                None => Err(ConfigError::BadValue),
            }
        } else if text_is(section, "GENERAL") && text_is(name, "default-user") {
            match parse_hex_u32(value) {
                Some(u) => {
                    self.default_user = u;
                    Ok(())
                },
                None => Err(ConfigError::BadValue),
            }
        } else if text_is(section, "KEYS") {
            let user = match parse_hex_u32(name) {
                Some(u) => u,
                None => return Err(ConfigError::BadValue),
            };
            let key = match parse_key(value) {
                Some(k) => k,
                None => return Err(ConfigError::BadValue),
            };
            if self.key(user).is_some() {
                return Err(ConfigError::Duplicate);
            }
            let ghost before = self.keys@;
            self.keys.push((user, key));
            assert(self.keys@.drop_last() =~= before);
            Ok(())
        } else if text_is(section, "RESOURCES") {
            let id = match parse_hex_u32(name) {
                Some(u) => u,
                None => return Err(ConfigError::BadValue),
            };
            let port = match parse_resource_port(value) {
                Some(p) => p,
                None => return Err(ConfigError::BadValue),
            };
            if self.port_by_resource_id(id).is_some() || self.resource_id_by_port(port).is_some() {
                return Err(ConfigError::Duplicate);
            }
            self.resources.push((id, port));
            Ok(())
        } else if text_is(section, "NFTABLES") && text_is(name, "family") {
            let v = String::from_str(value);
            if parse_family(&v).is_none() {
                return Err(ConfigError::BadValue);
            }
            self.nft_family = v;
            Ok(())
        } else if text_is(section, "NFTABLES") && text_is(name, "table") {
            self.nft_table = String::from_str(value);
            Ok(())
        } else if text_is(section, "NFTABLES") && text_is(name, "chain-input") {
            self.nft_chain_input = String::from_str(value);
            Ok(())
        } else {
            Ok(())
        }
    }
}

/// Whether two texts are equal.
fn text_is(s: &str, lit: &str) -> (r: bool)
    ensures
        r == (s@ == lit@),
{
    String::from_str(s) == String::from_str(lit)
}

/// `new` is `old` with the key `k` of `user` appended, `k` being what `text`
/// writes.
pub open spec fn key_appended(old: Config, new: Config, user: u32, text: Seq<char>) -> bool {
    &&& new == Config { keys: new.keys, ..old }
    &&& new.keys@.len() == old.keys@.len() + 1
    &&& new.keys@.drop_last() == old.keys@
    &&& new.keys@.last().0 == user
    &&& forall|i: int| 0 <= i < 32 ==> new.keys@.last().1@[i] as nat == key_byte(text, i)
}

/// What taking the entry `name = value` of `section` does: `new` is the
/// configuration after it, `r` the outcome. A failed entry changes nothing.
pub open spec fn entry_effect(
    old: Config,
    new: Config,
    section: Seq<char>,
    name: Seq<char>,
    value: Seq<char>,
    r: Result<(), ConfigError>,
) -> bool {
    &&& r is Err ==> new == old
    &&& if section == "GENERAL"@ && name == "port"@ {
        match dec_u16_of(value) {
            Some(p) => r is Ok && new == Config { port: p, ..old },
            None => r == Err::<(), ConfigError>(ConfigError::BadValue),
        }
    } else if section == "GENERAL"@ && name == "default-user"@ {
        match hex_u32_of(value) {
            Some(u) => r is Ok && new == Config { default_user: u, ..old },
            None => r == Err::<(), ConfigError>(ConfigError::BadValue),
        }
    } else if section == "KEYS"@ {
        if hex_u32_of(name) is None || !key_text_ok(value) {
            r == Err::<(), ConfigError>(ConfigError::BadValue)
        } else if key_of(old.keys@, hex_u32_of(name).unwrap()) is Some {
            r == Err::<(), ConfigError>(ConfigError::Duplicate)
        } else {
            r is Ok && key_appended(old, new, hex_u32_of(name).unwrap(), value)
        }
    } else if section == "RESOURCES"@ {
        if hex_u32_of(name) is None || resource_port_of(value) is None {
            r == Err::<(), ConfigError>(ConfigError::BadValue)
        } else if port_of_resource(old.resources@, hex_u32_of(name).unwrap()) is Some
            || resource_of_port(old.resources@, resource_port_of(value).unwrap()) is Some {
            r == Err::<(), ConfigError>(ConfigError::Duplicate)
        } else {
            r is Ok && new == Config { resources: new.resources, ..old } && new.resources@
                == old.resources@.push((hex_u32_of(name).unwrap(), resource_port_of(value).unwrap()))
        }
    } else if section == "NFTABLES"@ && name == "family"@ {
        if family_of(value) is None {
            r == Err::<(), ConfigError>(ConfigError::BadValue)
        } else {
            r is Ok && new == Config { nft_family: new.nft_family, ..old } && new.nft_family@ == value
        }
    } else if section == "NFTABLES"@ && name == "table"@ {
        r is Ok && new == Config { nft_table: new.nft_table, ..old } && new.nft_table@ == value
    } else if section == "NFTABLES"@ && name == "chain-input"@ {
        r is Ok && new == Config { nft_chain_input: new.nft_chain_input, ..old }
            && new.nft_chain_input@ == value
    } else {
        r is Ok && new == old
    }
}

} // verus!
