//! The lease engine: an ordered table of time-bounded grants, each opening
//! one port to one source address, and its projection into the managed
//! packet-filter chain.

use crate::config::Config;
use vstd::prelude::*;

verus! {

/// Lifetime of a lease, in milliseconds of the monotonic clock.
pub const LEASE_TIMEOUT: u64 = 3_600_000;

/// An IPv4 or IPv6 address, held as its integer value.
#[derive(Clone, Copy, Debug, PartialEq, Eq, Structural)]
pub enum IpAddress {
    V4(u32),
    V6(u128),
}

/// Packet-filter families that the managed chain can live in.
#[derive(Clone, Copy, Debug, PartialEq, Eq, Structural)]
pub enum NftFamily {
    INet,
    IP,
    IP6,
}

/// Why no ruleset could be built.
#[derive(Clone, Copy, Debug, PartialEq, Eq, Structural)]
pub enum FirewallError {
    UnknownFamily,
}

/// One accept rule: traffic from `addr` to TCP port `port` passes.
#[derive(Clone, Copy, Debug, PartialEq, Eq, Structural)]
pub struct Rule {
    pub addr: IpAddress,
    pub port: u16,
}

/// A time-bounded grant for one source address and one port.
#[derive(Clone, Copy, Debug, PartialEq, Eq, Structural)]
pub struct Lease {
    pub addr: IpAddress,
    pub port: u16,
    /// Monotonic time (ms) at which the lease ends.
    pub timeout: u64,
}

/// The whole content of the managed chain: it is flushed and refilled with
/// `rules`, in this order, in one transaction.
pub struct Ruleset {
    pub family: NftFamily,
    pub table: String,
    pub chain: String,
    pub rules: Vec<Rule>,
}

/// The table of leases.
pub struct Firewall {
    leases: Vec<Lease>,
    lease_timeout: u64,
}

/// The position of an address in the order of addresses: IPv4 first.
pub open spec fn addr_rank(a: IpAddress) -> int {
    match a {
        IpAddress::V4(x) => x as int,
        IpAddress::V6(y) => 0x1_0000_0000 + y as int,
    }
}

/// The position of `(addr, port)` in the order of leases: by address, then port.
pub open spec fn id_key(a: IpAddress, p: u16) -> int {
    addr_rank(a) * 65536 + p as int
}

pub open spec fn lease_key(l: Lease) -> int {
    id_key(l.addr, l.port)
}

/// Leases in strictly increasing order of address and port; so no two share
/// an address and a port.
pub open spec fn sorted(s: Seq<Lease>) -> bool {
    forall|i: int, j: int| 0 <= i < j < s.len() ==> lease_key(s[i]) < lease_key(s[j])
}

pub open spec fn rule_of(l: Lease) -> Rule {
    Rule { addr: l.addr, port: l.port }
}

/// The family that a configured family name stands for.
pub open spec fn family_of(name: Seq<char>) -> Option<NftFamily> {
    if name == "inet"@ {
        Some(NftFamily::INet)
    } else if name == "ip"@ {
        Some(NftFamily::IP)
    } else if name == "ip6"@ {
        Some(NftFamily::IP6)
    } else {
        None
    }
}

/// `r` is the projection of `leases` under `conf`: one accept rule per
/// lease, in the leases' order, in the configured table and chain.
pub open spec fn projects(r: Ruleset, leases: Seq<Lease>, conf: Config) -> bool {
    &&& family_of(conf.nft_family@) == Some(r.family)
    &&& r.table@ == conf.nft_table@
    &&& r.chain@ == conf.nft_chain_input@
    &&& r.rules@ == leases.map_values(|l: Lease| rule_of(l))
}

/// The leases of `s` that are still running at `now`, in order.
pub open spec fn live(s: Seq<Lease>, now: u64) -> Seq<Lease>
    decreases s.len(),
{
    if s.len() == 0 {
        s
    } else if now >= s.last().timeout {
        live(s.drop_last(), now)
    } else {
        live(s.drop_last(), now).push(s.last())
    }
}

/// Index of the lease for `(a, p)` in `s`, if there is one.
pub open spec fn has_id(s: Seq<Lease>, a: IpAddress, p: u16, i: int) -> bool {
    0 <= i < s.len() && s[i].addr == a && s[i].port == p
}

/// The deadline of a lease written at `now`.
pub open spec fn deadline(now: u64, ttl: u64) -> u64 {
    if now + ttl > u64::MAX {
        u64::MAX
    } else {
        (now + ttl) as u64
    }
}

proof fn lemma_key_order(a1: IpAddress, p1: u16, a2: IpAddress, p2: u16)
    ensures
        addr_rank(a1) < addr_rank(a2) ==> id_key(a1, p1) < id_key(a2, p2),
        addr_rank(a1) == addr_rank(a2) ==> (id_key(a1, p1) < id_key(a2, p2) <==> p1 < p2),
        addr_rank(a1) == addr_rank(a2) <==> a1 == a2,
        id_key(a1, p1) == id_key(a2, p2) <==> (a1 == a2 && p1 == p2),
{
    let r1 = addr_rank(a1);
    let r2 = addr_rank(a2);
    if r1 < r2 {
        assert(r1 * 65536 + p1 < r2 * 65536 + p2) by (nonlinear_arith)
            requires
                r1 < r2,
                0 <= p1 < 65536,
                0 <= p2,
        ;
    }
    if r2 < r1 {
        assert(r2 * 65536 + p2 < r1 * 65536 + p1) by (nonlinear_arith)
            requires
                r2 < r1,
                0 <= p2 < 65536,
                0 <= p1,
        ;
    }
}

fn addr_less(a: IpAddress, b: IpAddress) -> (r: bool)
    ensures
        r == (addr_rank(a) < addr_rank(b)),
{
    match (a, b) {
        (IpAddress::V4(x), IpAddress::V4(y)) => x < y,
        (IpAddress::V4(_), IpAddress::V6(_)) => true,
        (IpAddress::V6(_), IpAddress::V4(_)) => false,
        (IpAddress::V6(x), IpAddress::V6(y)) => x < y,
    }
}

/// Whether `(a1, p1)` comes before `(a2, p2)`.
fn id_less(a1: IpAddress, p1: u16, a2: IpAddress, p2: u16) -> (r: bool)
    ensures
        r == (id_key(a1, p1) < id_key(a2, p2)),
{
    proof {
        lemma_key_order(a1, p1, a2, p2);
        lemma_key_order(a2, p2, a1, p1);
    }
    if addr_less(a1, a2) {
        true
    } else if a1 == a2 {
        p1 < p2
    } else {
        false
    }
}

/// Parses a configured family name.
pub fn parse_family(name: &String) -> (r: Option<NftFamily>)
    ensures
        r == family_of(name@),
{
    if *name == String::from_str("inet") {
        Some(NftFamily::INet)
    } else if *name == String::from_str("ip") {
        Some(NftFamily::IP)
    } else if *name == String::from_str("ip6") {
        Some(NftFamily::IP6)
    } else {
        None
    }
}

/// `new` is `old` with the deadline of the lease for `(a, p)` set to `d`.
pub open spec fn refreshed(old: Seq<Lease>, new: Seq<Lease>, a: IpAddress, p: u16, d: u64) -> bool {
    exists|i: int|
        #[trigger] has_id(old, a, p, i) && new == old.update(i, Lease { timeout: d, ..old[i] })
}

/// `new` is `old` with a lease for `(a, p)` ending at `d` put in its place.
pub open spec fn inserted(old: Seq<Lease>, new: Seq<Lease>, a: IpAddress, p: u16, d: u64) -> bool {
    &&& forall|i: int| !#[trigger] has_id(old, a, p, i)
    &&& sorted(new)
    &&& exists|i: int|
        0 <= i <= old.len() && new == old.insert(i, Lease { addr: a, port: p, timeout: d })
}

/// What a successful `open_port` does to the leases.
pub open spec fn opened(old: Seq<Lease>, new: Seq<Lease>, a: IpAddress, p: u16, d: u64) -> bool {
    refreshed(old, new, a, p, d) || inserted(old, new, a, p, d)
}

proof fn lemma_sorted_unique(s: Seq<Lease>, a: IpAddress, p: u16, i: int, j: int)
    requires
        sorted(s),
        has_id(s, a, p, i),
        has_id(s, a, p, j),
    ensures
        i == j,
{
    if i < j {
        assert(lease_key(s[i]) < lease_key(s[j]));
    }
    if j < i {
        assert(lease_key(s[j]) < lease_key(s[i]));
    }
}

proof fn lemma_live_members(s: Seq<Lease>, now: u64)
    ensures
        live(s, now).len() <= s.len(),
        live(s, now).len() == s.len() ==> live(s, now) == s,
        forall|k: int|
            0 <= k < live(s, now).len() ==> exists|j: int|
                0 <= j < s.len() && #[trigger] live(s, now)[k] == s[j],
    decreases s.len(),
{
    if s.len() > 0 {
        let t = s.drop_last();
        lemma_live_members(t, now);
        assert(s == t.push(s.last()));
        if now >= s.last().timeout {
        } else {
            assert forall|k: int| 0 <= k < live(s, now).len() implies exists|j: int|
                0 <= j < s.len() && #[trigger] live(s, now)[k] == s[j] by {
                if k < live(t, now).len() {
                    let j = choose|j: int| 0 <= j < t.len() && live(t, now)[k] == t[j];
                    assert(live(s, now)[k] == s[j]);
                } else {
                    assert(live(s, now)[k] == s[s.len() - 1]);
                }
            }
        }
    }
}

impl IpAddress {
    /// The address with an IPv4-mapped IPv6 address (`::ffff:a.b.c.d`)
    /// flattened to IPv4, so that one host has one form.
    pub fn canonical(&self) -> (r: IpAddress)
        ensures
            r == match *self {
                IpAddress::V6(x) => if x >> 32u128 == 0xffffu128 {
                    IpAddress::V4(x as u32)
                } else {
                    *self
                },
                IpAddress::V4(_) => *self,
            },
    {
        match *self {
            IpAddress::V6(x) => if x >> 32u128 == 0xffffu128 {
                IpAddress::V4(x as u32)
            } else {
                *self
            },
            IpAddress::V4(_) => *self,
        }
    }
}

impl Lease {
    /// A lease for `(addr, port)` that ends `ttl` ms after `now`.
    pub fn new(addr: IpAddress, port: u16, now: u64, ttl: u64) -> (r: Lease)
        ensures
            r == (Lease { addr, port, timeout: deadline(now, ttl) }),
    {
        Lease { addr, port, timeout: now.saturating_add(ttl) }
    }

    /// Moves the end of the lease to `ttl` ms after `now`.
    pub fn refresh_timeout(&mut self, now: u64, ttl: u64)
        ensures
            *final(self) == (Lease { timeout: deadline(now, ttl), ..*old(self) }),
    {
        self.timeout = now.saturating_add(ttl);
    }

    /// Whether the lease has ended at `now`.
    pub fn is_timed_out(&self, now: u64) -> (r: bool)
        ensures
            r == (now >= self.timeout),
    {
        now >= self.timeout
    }

    /// The accept rule that this lease stands for.
    pub fn gen_rule(&self) -> (r: Rule)
        ensures
            r == rule_of(*self),
    {
        Rule { addr: self.addr, port: self.port }
    }
}

impl Firewall {
    /// The leases, in order of address and port.
    pub closed spec fn leases(&self) -> Seq<Lease> {
        self.leases@
    }

    /// Lifetime given to a lease when it is written.
    pub closed spec fn ttl(&self) -> u64 {
        self.lease_timeout
    }

    pub closed spec fn wf(&self) -> bool {
        sorted(self.leases@)
    }

    /// An empty table whose leases last `lease_timeout` ms.
    pub fn new(lease_timeout: u64) -> (r: Firewall)
        ensures
            r.wf(),
            r.leases() == Seq::<Lease>::empty(),
            r.ttl() == lease_timeout,
    {
        Firewall { leases: Vec::new(), lease_timeout }
    }

    /// Number of leases.
    pub fn len(&self) -> (r: usize)
        ensures
            r == self.leases().len(),
    {
        self.leases.len()
    }

    /// The lease at `i`, in order of address and port.
    pub fn lease(&self, i: usize) -> (r: Lease)
        requires
            i < self.leases().len(),
        ensures
            r == self.leases()[i as int],
    {
        self.leases[i]
    }

    /// The index at which the lease for `(a, p)` stands or would stand.
    fn position(&self, a: IpAddress, p: u16) -> (r: usize)
        requires
            self.wf(),
        ensures
            r <= self.leases().len(),
            forall|j: int| 0 <= j < r ==> lease_key(#[trigger] self.leases()[j]) < id_key(a, p),
            forall|j: int|
                r <= j < self.leases().len() ==> id_key(a, p) <= lease_key(
                    #[trigger] self.leases()[j],
                ),
    {
        let mut i: usize = 0;
        while i < self.leases.len()
            invariant
                self.wf(),
                i <= self.leases@.len(),
                forall|j: int| 0 <= j < i ==> lease_key(#[trigger] self.leases@[j]) < id_key(a, p),
            decreases self.leases@.len() - i,
        {
            let l = self.leases[i];
            if !id_less(l.addr, l.port, a, p) {
                return i;
            }
            i = i + 1;
        }
        i
    }

    /// The ruleset that the current leases project to under `conf`.
    pub fn ruleset(&self, conf: &Config) -> (r: Result<Ruleset, FirewallError>)
        ensures
            match r {
                Ok(rs) => projects(rs, self.leases(), *conf),
                Err(e) => e == FirewallError::UnknownFamily && family_of(conf.nft_family@) is None,
            },
    {
        let family = match parse_family(&conf.nft_family) {
            Some(f) => f,
            None => return Err(FirewallError::UnknownFamily),
        };
        let mut rules: Vec<Rule> = Vec::new();
        let mut i: usize = 0;
        while i < self.leases.len()
            invariant
                i <= self.leases@.len(),
                rules@ == self.leases@.subrange(0, i as int).map_values(|l: Lease| rule_of(l)),
            decreases self.leases@.len() - i,
        {
            rules.push(self.leases[i].gen_rule());
            i = i + 1;
            assert(rules@ =~= self.leases@.subrange(0, i as int).map_values(
                |l: Lease| rule_of(l),
            ));
        }
        assert(self.leases@.subrange(0, i as int) =~= self.leases@);
        Ok(
            Ruleset {
                family,
                table: conf.nft_table.clone(),
                chain: conf.nft_chain_input.clone(),
                rules,
            },
        )
    }

    /// Empties the table; the result is the projection of no leases.
    pub fn clear(&mut self, conf: &Config) -> (r: Result<Ruleset, FirewallError>)
        ensures
            final(self).wf(),
            final(self).ttl() == old(self).ttl(),
            final(self).leases() == Seq::<Lease>::empty(),
            match r {
                Ok(rs) => projects(rs, Seq::<Lease>::empty(), *conf) && rs.rules@.len() == 0,
                Err(e) => e == FirewallError::UnknownFamily && family_of(conf.nft_family@) is None,
            },
    {
        self.leases = Vec::new();
        self.ruleset(conf)
    }

    /// The rulesets that move the unchanged table from the configuration
    /// `prev` to `conf`: the chain that `prev` names emptied, then the
    /// projection under `conf`. The two are applied in one transaction.
    pub fn reload(&self, prev: &Config, conf: &Config) -> (r: Result<(Ruleset, Ruleset), FirewallError>)
        ensures
            match r {
                Ok((flushed, rs)) => projects(flushed, Seq::<Lease>::empty(), *prev)
                    && flushed.rules@.len() == 0 && projects(rs, self.leases(), *conf),
                Err(e) => e == FirewallError::UnknownFamily && (family_of(prev.nft_family@) is None
                    || family_of(conf.nft_family@) is None),
            },
    {
        let none = Firewall { leases: Vec::new(), lease_timeout: self.lease_timeout };
        let flushed = match none.ruleset(prev) {
            Ok(rs) => rs,
            Err(e) => return Err(e),
        };
        match self.ruleset(conf) {
            Ok(rs) => Ok((flushed, rs)),
            Err(e) => Err(e),
        }
    }

    /// Drops every lease that has ended at `now`. When none has, nothing is to
    /// be projected (`Ok(None)`); else the result is the new projection.
    pub fn maintain(&mut self, conf: &Config, now: u64) -> (r: Result<Option<Ruleset>, FirewallError>)
        requires
            old(self).wf(),
        ensures
            final(self).wf(),
            final(self).ttl() == old(self).ttl(),
            final(self).leases() == live(old(self).leases(), now),
            final(self).leases().len() == old(self).leases().len() ==> r == Ok::<
                Option<Ruleset>,
                FirewallError,
            >(None) && final(self).leases() == old(self).leases(),
            final(self).leases().len() != old(self).leases().len() ==> match r {
                Ok(Some(rs)) => projects(rs, final(self).leases(), *conf),
                Ok(None) => false,
                Err(e) => e == FirewallError::UnknownFamily && family_of(conf.nft_family@) is None,
            },
    {
        let ghost s = self.leases@;
        let mut out: Vec<Lease> = Vec::new();
        let mut i: usize = 0;
        while i < self.leases.len()
            invariant
                s == self.leases@,
                sorted(s),
                i <= s.len(),
                out@ == live(s.subrange(0, i as int), now),
                sorted(out@),
                forall|k: int, j: int|
                    0 <= k < out@.len() && i <= j < s.len() ==> lease_key(#[trigger] out@[k])
                        < lease_key(#[trigger] s[j]),
            decreases s.len() - i,
        {
            let l = self.leases[i];
            assert(s.subrange(0, i + 1).drop_last() =~= s.subrange(0, i as int));
            assert(s.subrange(0, i + 1).last() == l);
            if !l.is_timed_out(now) {
                out.push(l);
            }
            i = i + 1;
            proof {
                lemma_live_members(s.subrange(0, i as int), now);
                assert forall|k: int, j: int|
                    0 <= k < out@.len() && i <= j < s.len() implies lease_key(#[trigger] out@[k])
                    < lease_key(#[trigger] s[j]) by {
                    let jj = choose|jj: int|
                        0 <= jj < i && #[trigger] live(s.subrange(0, i as int), now)[k] == s.subrange(0, i as int)[jj];
                    assert(out@[k] == s[jj]);
                }
            }
        }
        assert(s.subrange(0, i as int) =~= s);
        proof {
            lemma_live_members(s, now);
        }
        let changed = out.len() != self.leases.len();
        self.leases = out;
        if changed {
            match self.ruleset(conf) {
                Ok(rs) => Ok(Some(rs)),
                Err(e) => Err(e),
            }
        } else {
            Ok(None)
        }
    }

    /// Grants `(addr, port)` a lease from `now`: a lease that stands is
    /// refreshed, else one is inserted in its place. The result is the new
    /// projection, and whether a lease was inserted, which the caller removes
    /// with `remove_lease` if the projection cannot be applied. When no
    /// projection can be built, an insertion is not made.
    pub fn open_port(&mut self, conf: &Config, addr: IpAddress, port: u16, now: u64) -> (r: Result<
        (Ruleset, bool),
        FirewallError,
    >)
        requires
            old(self).wf(),
        ensures
            final(self).wf(),
            final(self).ttl() == old(self).ttl(),
            (exists|i: int| #[trigger] has_id(old(self).leases(), addr, port, i)) ==> refreshed(
                old(self).leases(),
                final(self).leases(),
                addr,
                port,
                deadline(now, old(self).ttl()),
            ),
            (forall|i: int| !#[trigger] has_id(old(self).leases(), addr, port, i)) ==> (r is Ok
                ==> inserted(
                old(self).leases(),
                final(self).leases(),
                addr,
                port,
                deadline(now, old(self).ttl()),
            )) && (r is Err ==> final(self).leases() == old(self).leases()),
            r is Ok ==> opened(
                old(self).leases(),
                final(self).leases(),
                addr,
                port,
                deadline(now, old(self).ttl()),
            ),
            match r {
                Ok((rs, ins)) => projects(rs, final(self).leases(), *conf) && ins == (forall|i: int|
                    !#[trigger] has_id(old(self).leases(), addr, port, i)),
                Err(e) => e == FirewallError::UnknownFamily && family_of(conf.nft_family@) is None,
            },
    {
        let ghost s = self.leases@;
        let pos = self.position(addr, port);
        let d = now.saturating_add(self.lease_timeout);
        proof {
            lemma_key_order(addr, port, addr, port);
        }
        if pos < self.leases.len() && self.leases[pos].addr == addr && self.leases[pos].port == port {
            let mut l = self.leases[pos];
            l.refresh_timeout(now, self.lease_timeout);
            self.leases.set(pos, l);
            proof {
                assert(has_id(s, addr, port, pos as int));
                assert forall|x: int, y: int|
                    0 <= x < y < self.leases@.len() implies lease_key(self.leases@[x]) < lease_key(
                    self.leases@[y]) by {
                    assert(lease_key(s[x]) < lease_key(s[y]));
                }
            }
            match self.ruleset(conf) {
                Ok(rs) => Ok((rs, false)),
                Err(e) => Err(e),
            }
        } else {
            proof {
                assert forall|i: int| !#[trigger] has_id(s, addr, port, i) by {
                    if has_id(s, addr, port, i) {
                        lemma_key_order(s[i].addr, s[i].port, addr, port);
                        if i < pos {
                        } else if i > pos {
                            assert(lease_key(s[pos as int]) < lease_key(s[i]));
                        }
                    }
                }
            }
            let family = parse_family(&conf.nft_family);
            if family.is_none() {
                return Err(FirewallError::UnknownFamily);
            }
            let nl = Lease::new(addr, port, now, self.lease_timeout);
            self.leases.insert(pos, nl);
            proof {
                let t = self.leases@;
                assert(t == s.insert(pos as int, nl));
                assert forall|x: int, y: int| 0 <= x < y < t.len() implies lease_key(t[x])
                    < lease_key(t[y]) by {
                    if pos < s.len() {
                        lemma_key_order(addr, port, s[pos as int].addr, s[pos as int].port);
                    }
                    if y < pos {
                        assert(lease_key(s[x]) < lease_key(s[y]));
                    } else if y == pos {
                    } else if x < pos {
                        assert(t[y] == s[y - 1]);
                    } else if x == pos {
                        assert(t[y] == s[y - 1]);
                        if y - 1 > pos {
                            assert(lease_key(s[pos as int]) < lease_key(s[y - 1]));
                        }
                    } else {
                        assert(lease_key(s[x - 1]) < lease_key(s[y - 1]));
                    }
                }
            }
            match self.ruleset(conf) {
                Ok(rs) => Ok((rs, true)),
                Err(e) => Err(e),
            }
        }
    }

    /// Removes the lease for `(addr, port)`, if there is one; the result says
    /// whether there was.
    pub fn remove_lease(&mut self, addr: IpAddress, port: u16) -> (r: bool)
        requires
            old(self).wf(),
        ensures
            final(self).wf(),
            final(self).ttl() == old(self).ttl(),
            r == (exists|i: int| #[trigger] has_id(old(self).leases(), addr, port, i)),
            forall|i: int|
                #[trigger] has_id(old(self).leases(), addr, port, i) ==> final(self).leases()
                    == old(self).leases().remove(i),
            !r ==> final(self).leases() == old(self).leases(),
    {
        let ghost s = self.leases@;
        let pos = self.position(addr, port);
        proof {
            lemma_key_order(addr, port, addr, port);
        }
        if pos < self.leases.len() && self.leases[pos].addr == addr && self.leases[pos].port == port {
            self.leases.remove(pos);
            proof {
                assert forall|i: int| #[trigger] has_id(s, addr, port, i) implies self.leases@
                    == s.remove(i) by {
                    lemma_sorted_unique(s, addr, port, i, pos as int);
                }
                assert forall|x: int, y: int|
                    0 <= x < y < self.leases@.len() implies lease_key(self.leases@[x]) < lease_key(
                    self.leases@[y]) by {
                    let xx = if x < pos { x } else { x + 1 };
                    let yy = if y < pos { y } else { y + 1 };
                    assert(lease_key(s[xx]) < lease_key(s[yy]));
                }
                assert(has_id(s, addr, port, pos as int));
            }
            true
        } else {
            proof {
                assert forall|i: int| !#[trigger] has_id(s, addr, port, i) by {
                    if has_id(s, addr, port, i) {
                        lemma_key_order(s[i].addr, s[i].port, addr, port);
                        if i > pos {
                            assert(lease_key(s[pos as int]) < lease_key(s[i]));
                        }
                    }
                }
            }
            false
        }
    }
}

/// After a successful projection of a lease table, the managed chain holds
/// exactly one accept rule for each lease, and no other rule.
pub proof fn lemma_projection_exact(rs: Ruleset, leases: Seq<Lease>, conf: Config)
    requires
        sorted(leases),
        projects(rs, leases, conf),
    ensures
        rs.rules@.len() == leases.len(),
        forall|i: int| 0 <= i < leases.len() ==> rs.rules@[i] == rule_of(#[trigger] leases[i]),
        rs.rules@.no_duplicates(),
        forall|x: Rule|
            rs.rules@.contains(x) <==> exists|i: int|
                0 <= i < leases.len() && rule_of(#[trigger] leases[i]) == x,
{
    let rules = rs.rules@;
    assert forall|i: int, j: int| 0 <= i < rules.len() && 0 <= j < rules.len() && i != j implies rules[i]
        != rules[j] by {
        lemma_key_order(leases[i].addr, leases[i].port, leases[j].addr, leases[j].port);
        if i < j {
            assert(lease_key(leases[i]) < lease_key(leases[j]));
        } else {
            assert(lease_key(leases[j]) < lease_key(leases[i]));
        }
    }
    assert forall|x: Rule| rules.contains(x) implies exists|i: int|
        0 <= i < leases.len() && rule_of(#[trigger] leases[i]) == x by {
        let k = choose|k: int| 0 <= k < rules.len() && rules[k] == x;
        assert(rule_of(leases[k]) == x);
    }
    assert forall|x: Rule| (exists|i: int| 0 <= i < leases.len() && rule_of(#[trigger] leases[i]) == x)
        implies rules.contains(x) by {
        let i = choose|i: int| 0 <= i < leases.len() && rule_of(#[trigger] leases[i]) == x;
        assert(rules[i] == x);
    }
}

/// Opening the same address and port twice leaves the number of leases as
/// the first opening left it, and the lease ends at the second deadline.
pub proof fn lemma_open_twice(
    s0: Seq<Lease>,
    s1: Seq<Lease>,
    s2: Seq<Lease>,
    a: IpAddress,
    p: u16,
    d1: u64,
    d2: u64,
)
    requires
        sorted(s0),
        opened(s0, s1, a, p, d1),
        opened(s1, s2, a, p, d2),
    ensures
        s2.len() == s1.len(),
        exists|i: int|
            #[trigger] has_id(s1, a, p, i) && has_id(s2, a, p, i) && s2[i].timeout == d2 && s2
                == s1.update(i, Lease { timeout: d2, ..s1[i] }),
{
    if refreshed(s0, s1, a, p, d1) {
        let i = choose|i: int|
            #[trigger] has_id(s0, a, p, i) && s1 == s0.update(i, Lease { timeout: d1, ..s0[i] });
        assert(has_id(s1, a, p, i));
    } else {
        let i = choose|i: int|
            0 <= i <= s0.len() && s1 == s0.insert(i, Lease { addr: a, port: p, timeout: d1 });
        assert(has_id(s1, a, p, i));
    }
    let j = choose|j: int|
        #[trigger] has_id(s1, a, p, j) && s2 == s1.update(j, Lease { timeout: d2, ..s1[j] });
    assert(has_id(s2, a, p, j));
}

/// Projecting the same leases under two configurations that name the same
/// family, table and chain gives the same ruleset.
pub proof fn lemma_reload_identical(
    r1: Ruleset,
    r2: Ruleset,
    leases: Seq<Lease>,
    c1: Config,
    c2: Config,
)
    requires
        projects(r1, leases, c1),
        projects(r2, leases, c2),
        c1.nft_family@ == c2.nft_family@,
        c1.nft_table@ == c2.nft_table@,
        c1.nft_chain_input@ == c2.nft_chain_input@,
    ensures
        r1.family == r2.family,
        r1.table@ == r2.table@,
        r1.chain@ == r2.chain@,
        r1.rules@ == r2.rules@,
{
}

} // verus!
