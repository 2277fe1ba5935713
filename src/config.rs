//! The settings that the handshake and the firewall projection read.

use crate::auth::Key;
use vstd::prelude::*;

verus! {

/// Directory under which the program is installed.
pub const INSTALL_PREFIX: &'static str = "/opt/letmein";

/// Path of the server's configuration file under the install prefix.
pub const SERVER_CONF_PATH: &'static str = "/etc/letmeind.conf";

/// Server and client settings.
pub struct Config {
    /// Port that the server listens on.
    pub port: u16,
    /// User that a client knocks as when none is given.
    pub default_user: u32,
    /// Key of each user.
    pub keys: Vec<(u32, Key)>,
    /// Port that each resource stands for.
    pub resources: Vec<(u32, u16)>,
    /// Packet-filter family name (`inet`, `ip` or `ip6`).
    pub nft_family: String,
    /// Packet-filter table name.
    pub nft_table: String,
    /// Name of the managed chain.
    pub nft_chain_input: String,
}

/// The key of the first entry for `user`.
pub open spec fn key_of(keys: Seq<(u32, Key)>, user: u32) -> Option<Key>
    decreases keys.len(),
{
    if keys.len() == 0 {
        None
    } else if keys[0].0 == user {
        Some(keys[0].1)
    } else {
        key_of(keys.drop_first(), user)
    }
}

/// The resource of the first entry for `port`.
pub open spec fn resource_of_port(res: Seq<(u32, u16)>, port: u16) -> Option<u32>
    decreases res.len(),
{
    if res.len() == 0 {
        None
    } else if res[0].1 == port {
        Some(res[0].0)
    } else {
        resource_of_port(res.drop_first(), port)
    }
}

/// The port of the first entry for `resource`.
pub open spec fn port_of_resource(res: Seq<(u32, u16)>, resource: u32) -> Option<u16>
    decreases res.len(),
{
    if res.len() == 0 {
        None
    } else if res[0].0 == resource {
        Some(res[0].1)
    } else {
        port_of_resource(res.drop_first(), resource)
    }
}

impl Config {
    /// The key of `user`, if the configuration has one.
    pub fn key(&self, user: u32) -> (r: Option<Key>)
        ensures
            r == key_of(self.keys@, user),
    {
        let mut i: usize = 0;
        assert(self.keys@.subrange(0, self.keys@.len() as int) =~= self.keys@);
        while i < self.keys.len()
            invariant
                i <= self.keys@.len(),
                key_of(self.keys@, user) == key_of(self.keys@.subrange(i as int, self.keys@.len() as int), user),
            decreases self.keys@.len() - i,
        {
            let ghost rest = self.keys@.subrange(i as int, self.keys@.len() as int);
            assert(rest.drop_first() =~= self.keys@.subrange(i + 1, self.keys@.len() as int));
            if self.keys[i].0 == user {
                return Some(self.keys[i].1);
            }
            i = i + 1;
        }
        None
    }

    /// The resource that `port` is mapped to, if any.
    pub fn resource_id_by_port(&self, port: u16) -> (r: Option<u32>)
        ensures
            r == resource_of_port(self.resources@, port),
    {
        let mut i: usize = 0;
        assert(self.resources@.subrange(0, self.resources@.len() as int) =~= self.resources@);
        while i < self.resources.len()
            invariant
                i <= self.resources@.len(),
                resource_of_port(self.resources@, port) == resource_of_port(
                    self.resources@.subrange(i as int, self.resources@.len() as int),
                    port,
                ),
            decreases self.resources@.len() - i,
        {
            let ghost rest = self.resources@.subrange(i as int, self.resources@.len() as int);
            assert(rest.drop_first() =~= self.resources@.subrange(
                i + 1,
                self.resources@.len() as int,
            ));
            if self.resources[i].1 == port {
                return Some(self.resources[i].0);
            }
            i = i + 1;
        }
        None
    }

    /// The port that `resource` stands for, if any.
    pub fn port_by_resource_id(&self, resource: u32) -> (r: Option<u16>)
        ensures
            r == port_of_resource(self.resources@, resource),
    {
        let mut i: usize = 0;
        assert(self.resources@.subrange(0, self.resources@.len() as int) =~= self.resources@);
        while i < self.resources.len()
            invariant
                i <= self.resources@.len(),
                port_of_resource(self.resources@, resource) == port_of_resource(
                    self.resources@.subrange(i as int, self.resources@.len() as int),
                    resource,
                ),
            decreases self.resources@.len() - i,
        {
            let ghost rest = self.resources@.subrange(i as int, self.resources@.len() as int);
            assert(rest.drop_first() =~= self.resources@.subrange(
                i + 1,
                self.resources@.len() as int,
            ));
            if self.resources[i].0 == resource {
                return Some(self.resources[i].1);
            }
            i = i + 1;
        }
        None
    }
}

} // verus!
