use letmein::config::Config;
use letmein::firewall::{Firewall, IpAddress, Rule, LEASE_TIMEOUT};
use letmein::knock::{
    knock_succeeded, plan_knock, stops_on_failure, AddrMode, HostKind, KnockError, ResMode,
};
use letmein::opts::Opts;
use letmein::protocol::{server_on_knock, server_on_response, server_reply, ProtocolError};
use letmein::wire::{DecodeError, Message, Operation};

const K: [u8; 32] = [0x42u8; 32];

fn conf() -> Config {
    Config {
        port: 5555,
        default_user: 0x0000_0001,
        keys: vec![(0x0000_0001, K), (0x0000_0002, [0x99u8; 32])],
        resources: vec![(0x0000_002A, 22), (0x0000_002B, 443)],
        nft_family: "inet".to_string(),
        nft_table: "filter".to_string(),
        nft_chain_input: "LETMEIN-INPUT".to_string(),
    }
}

#[test]
fn config_lookups() {
    let c = conf();
    assert_eq!(c.key(1), Some(K));
    assert_eq!(c.key(3), None);
    assert_eq!(c.resource_id_by_port(22), Some(0x2A));
    assert_eq!(c.resource_id_by_port(9999), None);
    assert_eq!(c.port_by_resource_id(0x2B), Some(443));
    assert_eq!(c.port_by_resource_id(0x2C), None);
}

#[test]
fn happy_path_handshake() {
    let c = conf();
    let plan = plan_knock(&c, AddrMode::Ipv4, HostKind::Ipv4Literal, None, 22, None).unwrap();
    assert_eq!(plan.seq.user, 1);
    assert_eq!(plan.seq.resource, 0x2A);
    assert_eq!(plan.seq.server_port, 5555);
    assert_eq!(plan.attempts, vec![ResMode::Ipv4]);
    let knock = plan.seq.knock_message([1u8; 16]);

    let nonce = [0x5Au8; 16];
    let chal = server_on_knock(&c, &knock.encode(), nonce, [2u8; 16]).expect("challenge");
    assert_eq!(chal.operation, Operation::Challenge);
    assert_eq!(&chal.payload[..16], &nonce);
    assert_eq!(&chal.payload[16..], &[0u8; 16]);

    let (seen, resp) = plan.seq.on_challenge(&chal.encode(), [3u8; 16]).unwrap();
    assert_eq!(seen, chal);
    let check = plan.seq.check_reply(&seen);
    assert!(!check.user_differs && !check.resource_differs);

    let port = server_on_response(&c, &chal, &resp.encode()).expect("port");
    assert_eq!(port, 22);

    let mut fw = Firewall::new(LEASE_TIMEOUT);
    let addr = IpAddress::V4(0xCB00_7104);
    let opened = fw.open_port(&c, addr, port, 0).is_ok();
    let (_, rs) = fw.reload(&c, &c).unwrap();
    assert_eq!(rs.chain, "LETMEIN-INPUT");
    assert_eq!(rs.rules, vec![Rule { addr, port: 22 }]);

    let key = c.key(chal.user).unwrap();
    let fin = server_reply(&key, &chal, opened, [4u8; 16]);
    assert_eq!(fin.operation, Operation::ComeIn);
    let done = plan.seq.on_come_in(&fin.encode(), &chal).unwrap();
    assert_eq!(done, fin);
}

#[test]
fn wrong_key_gets_no_reply() {
    let c = conf();
    let mut client_key = K;
    client_key[0] ^= 1;
    let mut seq = plan_knock(&c, AddrMode::Ipv4, HostKind::Ipv4Literal, None, 22, None)
        .unwrap()
        .seq;
    seq.key = client_key;
    // The knock itself is already refused.
    let knock = seq.knock_message([1u8; 16]);
    assert!(server_on_knock(&c, &knock.encode(), [5u8; 16], [6u8; 16]).is_none());

    // A challenge made for the right key is refused by the client with the wrong one,
    // and a response signed with the wrong key gets no reply.
    let mut good = Message::with_salt(Operation::Knock, 1, 0x2A, [1u8; 16]);
    good.sign_no_challenge(&K);
    let chal = server_on_knock(&c, &good.encode(), [5u8; 16], [6u8; 16]).unwrap();
    assert_eq!(seq.on_challenge(&chal.encode(), [7u8; 16]), Err(ProtocolError::BadAuthenticator));
    let mut resp = Message::with_salt(Operation::Response, 1, 0x2A, [8u8; 16]);
    resp.sign_with_challenge(&client_key, &chal);
    assert_eq!(server_on_response(&c, &chal, &resp.encode()), None);
}

#[test]
fn unknown_port_is_a_config_error() {
    let c = conf();
    let r = plan_knock(&c, AddrMode::TryBoth, HostKind::Name, None, 9999, None);
    assert!(matches!(r, Err(KnockError::NoResource(9999))));
    let r = plan_knock(&c, AddrMode::TryBoth, HostKind::Name, None, 22, Some(7));
    assert!(matches!(r, Err(KnockError::NoKey(7))));
}

#[test]
fn unknown_user_or_resource_knock_is_dropped() {
    let c = conf();
    let mut m = Message::with_salt(Operation::Knock, 3, 0x2A, [1u8; 16]);
    m.sign_no_challenge(&K);
    assert!(server_on_knock(&c, &m.encode(), [0u8; 16], [0u8; 16]).is_none());
    let mut m = Message::with_salt(Operation::Knock, 1, 0x77, [1u8; 16]);
    m.sign_no_challenge(&K);
    assert!(server_on_knock(&c, &m.encode(), [0u8; 16], [0u8; 16]).is_none());
    let mut m = Message::with_salt(Operation::Response, 1, 0x2A, [1u8; 16]);
    m.sign_no_challenge(&K);
    assert!(server_on_knock(&c, &m.encode(), [0u8; 16], [0u8; 16]).is_none());
    assert!(server_on_knock(&c, &[0u8; 10], [0u8; 16], [0u8; 16]).is_none());
}

#[test]
fn replayed_knock_gets_fresh_challenge() {
    let c = conf();
    let mut knock = Message::with_salt(Operation::Knock, 1, 0x2A, [1u8; 16]);
    knock.sign_no_challenge(&K);
    let bytes = knock.encode();
    let c1 = server_on_knock(&c, &bytes, [0x10u8; 16], [1u8; 16]).unwrap();
    let c2 = server_on_knock(&c, &bytes, [0x20u8; 16], [2u8; 16]).unwrap();
    assert_ne!(c1.payload, c2.payload);
    assert_eq!(&c2.payload[..16], &[0x20u8; 16]);

    // A response to the first challenge fails against the second.
    let mut resp = Message::with_salt(Operation::Response, 1, 0x2A, [9u8; 16]);
    resp.sign_with_challenge(&K, &c1);
    assert_eq!(server_on_response(&c, &c1, &resp.encode()), Some(22));
    assert_eq!(server_on_response(&c, &c2, &resp.encode()), None);
}

#[test]
fn client_rejects_unexpected_replies() {
    let c = conf();
    let seq = plan_knock(&c, AddrMode::Ipv4, HostKind::Ipv4Literal, None, 22, None)
        .unwrap()
        .seq;
    let mut chal = Message::with_salt(Operation::Challenge, 1, 0x2A, [1u8; 16]);
    chal.sign_no_challenge(&K);
    let deny = server_reply(&K, &chal, false, [2u8; 16]);
    assert_eq!(deny.operation, Operation::GoAway);
    assert_eq!(seq.on_come_in(&deny.encode(), &chal), Err(ProtocolError::Denied));
    let come = server_reply(&K, &chal, true, [2u8; 16]);
    assert_eq!(
        seq.on_challenge(&come.encode(), [0u8; 16]),
        Err(ProtocolError::UnexpectedOperation(Operation::ComeIn))
    );
    assert_eq!(
        seq.on_come_in(&[1u8; 3], &chal),
        Err(ProtocolError::Malformed(DecodeError::WrongLength))
    );
    // A ComeIn bound to another challenge fails.
    let mut other = chal;
    other.payload[0] = 1;
    assert_eq!(seq.on_come_in(&come.encode(), &other), Err(ProtocolError::BadAuthenticator));
}

#[test]
fn check_reply_flags_differences() {
    let c = conf();
    let seq = plan_knock(&c, AddrMode::Ipv4, HostKind::Ipv4Literal, None, 22, None)
        .unwrap()
        .seq;
    let m = Message::with_salt(Operation::Challenge, 2, 0x2B, [0u8; 16]);
    let r = seq.check_reply(&m);
    assert!(r.user_differs && r.resource_differs);
}

#[test]
fn addr_mode_from_switches() {
    assert_eq!(AddrMode::from((false, false)), AddrMode::TryBoth);
    assert_eq!(AddrMode::from((true, true)), AddrMode::Both);
    assert_eq!(AddrMode::from((false, true)), AddrMode::Ipv6);
    assert_eq!(AddrMode::from((true, false)), AddrMode::Ipv4);
    assert_eq!(AddrMode::default(), AddrMode::TryBoth);
}

#[test]
fn knock_attempts_per_mode() {
    let c = conf();
    let p = |m, h| plan_knock(&c, m, h, Some(1), 443, Some(2)).unwrap();
    let plan = p(AddrMode::TryBoth, HostKind::Name);
    assert_eq!(plan.attempts, vec![ResMode::Ipv6, ResMode::Ipv4]);
    assert!(!plan.require_all);
    assert_eq!(plan.seq.server_port, 1);
    assert_eq!(plan.seq.user, 2);
    assert_eq!(plan.seq.resource, 0x2B);
    assert_eq!(plan.seq.key, [0x99u8; 32]);
    assert_eq!(p(AddrMode::TryBoth, HostKind::Ipv4Literal).attempts, vec![ResMode::Ipv4]);
    assert_eq!(p(AddrMode::TryBoth, HostKind::Ipv6Literal).attempts, vec![ResMode::Ipv6]);
    let both = p(AddrMode::Both, HostKind::Ipv4Literal);
    assert_eq!(both.attempts, vec![ResMode::Ipv6, ResMode::Ipv4]);
    assert!(both.require_all);
    assert_eq!(p(AddrMode::Ipv6, HostKind::Name).attempts, vec![ResMode::Ipv6]);
}

#[test]
fn knock_outcomes() {
    assert!(knock_succeeded(false, &vec![false, true]));
    assert!(!knock_succeeded(false, &vec![false, false]));
    assert!(!knock_succeeded(true, &vec![true, false]));
    assert!(knock_succeeded(true, &vec![true, true]));
    assert!(stops_on_failure(true, false));
    assert!(!stops_on_failure(false, false));
    assert!(!stops_on_failure(true, true));
}

#[test]
fn config_path_default_and_override() {
    let o = Opts { config: None, num_connections: 8, no_systemd: false };
    assert_eq!(o.get_config(), "/opt/letmein/etc/letmeind.conf");
    let o = Opts { config: Some("/tmp/x.conf".to_string()), num_connections: 8, no_systemd: true };
    assert_eq!(o.get_config(), "/tmp/x.conf");
}
