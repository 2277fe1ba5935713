use letmein::conf_parse::{
    parse_dec_u16, parse_hex_u32, parse_key, parse_resource_port, ConfigError,
};
use letmein::config::Config;

#[test]
fn hex_identifiers() {
    assert_eq!(parse_hex_u32("00000001"), Some(1));
    assert_eq!(parse_hex_u32("2a"), Some(0x2A));
    assert_eq!(parse_hex_u32("DEADBEEF"), Some(0xDEAD_BEEF));
    assert_eq!(parse_hex_u32("ffffffff"), Some(u32::MAX));
    assert_eq!(parse_hex_u32(""), None);
    assert_eq!(parse_hex_u32("123456789"), None);
    assert_eq!(parse_hex_u32("12g4"), None);
}

#[test]
fn decimal_ports() {
    assert_eq!(parse_dec_u16("22"), Some(22));
    assert_eq!(parse_dec_u16("65535"), Some(65535));
    assert_eq!(parse_dec_u16("65536"), None);
    assert_eq!(parse_dec_u16("99999"), None);
    assert_eq!(parse_dec_u16("0"), Some(0));
    assert_eq!(parse_dec_u16(""), None);
    assert_eq!(parse_dec_u16("1a"), None);
    assert_eq!(parse_dec_u16("123456"), None);
}

#[test]
fn resource_values() {
    assert_eq!(parse_resource_port("port:22"), Some(22));
    assert_eq!(parse_resource_port("port:"), None);
    assert_eq!(parse_resource_port("Port:22"), None);
    assert_eq!(parse_resource_port("22"), None);
}

#[test]
fn key_values() {
    let text = "00112233445566778899aabbccddeeff00112233445566778899AABBCCDDEEFF";
    let k = parse_key(text).unwrap();
    assert_eq!(k[0], 0x00);
    assert_eq!(k[1], 0x11);
    assert_eq!(k[15], 0xFF);
    assert_eq!(k[31], 0xFF);
    assert_eq!(parse_key(&text[..62]), None);
    let bad = text.replace('a', "x");
    assert_eq!(parse_key(&bad), None);
}

#[test]
fn entries_fill_config() {
    let mut c = Config::empty();
    let key = "4242424242424242424242424242424242424242424242424242424242424242";
    assert_eq!(c.set_entry("GENERAL", "port", "5800"), Ok(()));
    assert_eq!(c.set_entry("GENERAL", "default-user", "00000001"), Ok(()));
    assert_eq!(c.set_entry("KEYS", "00000001", key), Ok(()));
    assert_eq!(c.set_entry("RESOURCES", "0000002A", "port:22"), Ok(()));
    assert_eq!(c.set_entry("NFTABLES", "family", "inet"), Ok(()));
    assert_eq!(c.set_entry("NFTABLES", "table", "filter"), Ok(()));
    assert_eq!(c.set_entry("NFTABLES", "chain-input", "LETMEIN-INPUT"), Ok(()));
    assert_eq!(c.set_entry("OTHER", "x", "y"), Ok(()));
    assert_eq!(c.port, 5800);
    assert_eq!(c.default_user, 1);
    assert_eq!(c.key(1), Some([0x42u8; 32]));
    assert_eq!(c.resource_id_by_port(22), Some(0x2A));
    assert_eq!(c.nft_family, "inet");
    assert_eq!(c.nft_table, "filter");
    assert_eq!(c.nft_chain_input, "LETMEIN-INPUT");
}

#[test]
fn entry_errors() {
    let mut c = Config::empty();
    let key = "4242424242424242424242424242424242424242424242424242424242424242";
    assert_eq!(c.set_entry("GENERAL", "port", "x"), Err(ConfigError::BadValue));
    assert_eq!(c.set_entry("KEYS", "zz", key), Err(ConfigError::BadValue));
    assert_eq!(c.set_entry("KEYS", "1", "abcd"), Err(ConfigError::BadValue));
    assert_eq!(c.set_entry("KEYS", "1", key), Ok(()));
    assert_eq!(c.set_entry("KEYS", "00000001", key), Err(ConfigError::Duplicate));
    assert_eq!(c.set_entry("RESOURCES", "2A", "port:22"), Ok(()));
    assert_eq!(c.set_entry("RESOURCES", "2A", "port:23"), Err(ConfigError::Duplicate));
    assert_eq!(c.set_entry("RESOURCES", "2B", "port:22"), Err(ConfigError::Duplicate));
    assert_eq!(c.set_entry("RESOURCES", "2C", "22"), Err(ConfigError::BadValue));
    assert_eq!(c.set_entry("NFTABLES", "family", "arp"), Err(ConfigError::BadValue));
    assert_eq!(c.nft_family, "");
    assert_eq!(c.keys.len(), 1);
    assert_eq!(c.resources.len(), 1);
}
