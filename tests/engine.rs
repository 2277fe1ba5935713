use letmein::config::Config;
use letmein::firewall::{
    parse_family, FirewallError, Firewall, IpAddress, Lease, NftFamily, Rule, LEASE_TIMEOUT,
};

fn conf(chain: &str) -> Config {
    Config {
        port: 5555,
        default_user: 1,
        keys: vec![(1, [0x11u8; 32])],
        resources: vec![(0x2A, 22)],
        nft_family: "inet".to_string(),
        nft_table: "filter".to_string(),
        nft_chain_input: chain.to_string(),
    }
}

const A4: IpAddress = IpAddress::V4(0xCB00_7104); // 203.0.113.4
const A6: IpAddress = IpAddress::V6(0x2001_0db8_0000_0000_0000_0000_0000_0001); // 2001:db8::1

#[test]
fn happy_path_installs_one_rule() {
    let c = conf("LETMEIN-INPUT");
    let mut fw = Firewall::new(LEASE_TIMEOUT);
    let (rs, inserted) = fw.open_port(&c, A4, 22, 1000).unwrap();
    assert!(inserted);
    assert_eq!(rs.family, NftFamily::INet);
    assert_eq!(rs.table, "filter");
    assert_eq!(rs.chain, "LETMEIN-INPUT");
    assert_eq!(rs.rules, vec![Rule { addr: A4, port: 22 }]);
    assert_eq!(fw.lease(0).timeout, 1000 + 3_600_000);
}

#[test]
fn lease_refresh_keeps_one_rule() {
    let c = conf("LETMEIN-INPUT");
    let mut fw = Firewall::new(LEASE_TIMEOUT);
    let mut applies = 0;
    let (rs1, ins1) = fw.open_port(&c, A6, 22, 0).unwrap();
    applies += 1;
    let first = fw.lease(0).timeout;
    let (rs2, ins2) = fw.open_port(&c, A6, 22, 30_000).unwrap();
    applies += 1;
    assert!(ins1);
    assert!(!ins2);
    assert_eq!(applies, 2);
    assert_eq!(fw.len(), 1);
    assert_eq!(rs1.rules, rs2.rules);
    assert_eq!(rs2.rules.len(), 1);
    assert_eq!(fw.lease(0).timeout - first, 30_000);
}

#[test]
fn expiry_removes_rule() {
    let c = conf("LETMEIN-INPUT");
    let mut fw = Firewall::new(2_000);
    fw.open_port(&c, A4, 22, 0).unwrap();
    assert!(fw.maintain(&c, 1_000).unwrap().is_none());
    let rs = fw.maintain(&c, 3_000).unwrap().expect("one projection");
    assert!(rs.rules.is_empty());
    assert_eq!(fw.len(), 0);
}

#[test]
fn maintain_without_expiry_projects_nothing() {
    let c = conf("LETMEIN-INPUT");
    let mut fw = Firewall::new(10_000);
    fw.open_port(&c, A4, 22, 0).unwrap();
    fw.open_port(&c, A6, 443, 0).unwrap();
    assert!(fw.maintain(&c, 9_999).unwrap().is_none());
    assert_eq!(fw.len(), 2);
    let empty = Firewall::new(10);
    let mut empty = empty;
    assert!(empty.maintain(&c, 1_000_000).unwrap().is_none());
}

#[test]
fn maintain_keeps_live_leases_in_order() {
    let c = conf("X");
    let mut fw = Firewall::new(100);
    fw.open_port(&c, A6, 22, 50).unwrap();
    fw.open_port(&c, A4, 80, 0).unwrap();
    fw.open_port(&c, A4, 22, 50).unwrap();
    let rs = fw.maintain(&c, 100).unwrap().unwrap();
    assert_eq!(rs.rules, vec![Rule { addr: A4, port: 22 }, Rule { addr: A6, port: 22 }]);
}

#[test]
fn rules_sorted_by_address_then_port() {
    let c = conf("X");
    let mut fw = Firewall::new(LEASE_TIMEOUT);
    fw.open_port(&c, A6, 22, 0).unwrap();
    fw.open_port(&c, A4, 443, 0).unwrap();
    fw.open_port(&c, IpAddress::V4(1), 443, 0).unwrap();
    let (rs, _) = fw.open_port(&c, A4, 22, 0).unwrap();
    assert_eq!(
        rs.rules,
        vec![
            Rule { addr: IpAddress::V4(1), port: 443 },
            Rule { addr: A4, port: 22 },
            Rule { addr: A4, port: 443 },
            Rule { addr: A6, port: 22 },
        ]
    );
}

#[test]
fn reload_moves_rules_to_new_chain() {
    let a = conf("A");
    let b = conf("B");
    let mut fw = Firewall::new(LEASE_TIMEOUT);
    fw.open_port(&a, A4, 22, 0).unwrap();
    let (flushed, rs) = fw.reload(&a, &b).unwrap();
    assert_eq!(flushed.chain, "A");
    assert!(flushed.rules.is_empty());
    assert_eq!(rs.chain, "B");
    assert_eq!(rs.rules, vec![Rule { addr: A4, port: 22 }]);
    let (_, again) = fw.reload(&b, &b).unwrap();
    assert_eq!(again.chain, rs.chain);
    assert_eq!(again.table, rs.table);
    assert_eq!(again.family, rs.family);
    assert_eq!(again.rules, rs.rules);
}

#[test]
fn reload_with_unknown_family_fails() {
    let a = conf("A");
    let mut b = conf("B");
    b.nft_family = "bridge".to_string();
    let fw = Firewall::new(LEASE_TIMEOUT);
    assert!(matches!(fw.reload(&a, &b), Err(FirewallError::UnknownFamily)));
    assert!(matches!(fw.reload(&b, &a), Err(FirewallError::UnknownFamily)));
}

#[test]
fn clear_empties_chain() {
    let c = conf("X");
    let mut fw = Firewall::new(LEASE_TIMEOUT);
    fw.open_port(&c, A4, 22, 0).unwrap();
    fw.open_port(&c, A6, 22, 0).unwrap();
    let rs = fw.clear(&c).unwrap();
    assert!(rs.rules.is_empty());
    assert_eq!(fw.len(), 0);
}

#[test]
fn unknown_family_is_an_error() {
    let mut c = conf("X");
    c.nft_family = "arp".to_string();
    let mut fw = Firewall::new(LEASE_TIMEOUT);
    assert!(matches!(fw.open_port(&c, A4, 22, 0), Err(FirewallError::UnknownFamily)));
    assert_eq!(fw.len(), 0);
    assert!(matches!(fw.clear(&c), Err(FirewallError::UnknownFamily)));
    assert_eq!(parse_family(&"ip".to_string()), Some(NftFamily::IP));
    assert_eq!(parse_family(&"ip6".to_string()), Some(NftFamily::IP6));
    assert_eq!(parse_family(&"inet".to_string()), Some(NftFamily::INet));
    assert_eq!(parse_family(&"INET".to_string()), None);
}

#[test]
fn failed_apply_rolls_back_insertion() {
    let c = conf("X");
    let mut fw = Firewall::new(LEASE_TIMEOUT);
    let (_, inserted) = fw.open_port(&c, A4, 22, 0).unwrap();
    assert!(inserted);
    assert!(fw.remove_lease(A4, 22));
    assert_eq!(fw.len(), 0);
    assert!(!fw.remove_lease(A4, 22));
}

#[test]
fn ipv4_mapped_addresses_are_flattened() {
    let mapped = IpAddress::V6(0xffff_cb00_7104);
    assert_eq!(mapped.canonical(), A4);
    assert_eq!(A6.canonical(), A6);
    assert_eq!(A4.canonical(), A4);
}

#[test]
fn lease_timeout_saturates() {
    let mut l = Lease::new(A4, 22, u64::MAX - 5, 100);
    assert_eq!(l.timeout, u64::MAX);
    assert!(!l.is_timed_out(u64::MAX - 1));
    assert!(l.is_timed_out(u64::MAX));
    l.refresh_timeout(10, 100);
    assert_eq!(l.timeout, 110);
    assert_eq!(l.gen_rule(), Rule { addr: A4, port: 22 });
}
