use helios::address::{format_address, parse_address, ServerAddress};
use helios::config::{decode, decode_table, encode, encode_table, DecodeError, PluginConfig};

fn config(name: &str, version: &str, ip: [u8; 4]) -> PluginConfig {
    PluginConfig {
        name: name.to_string(),
        version: version.to_string(),
        server_ip: ServerAddress::V4(ip),
    }
}

#[test]
fn parse_address_reads_dotted_decimal() {
    assert_eq!(parse_address("1.2.3.4"), Some(ServerAddress::V4([1, 2, 3, 4])));
    assert_eq!(parse_address("255.0.10.199"), Some(ServerAddress::V4([255, 0, 10, 199])));
    assert_eq!(parse_address("0.0.0.0"), Some(ServerAddress::V4([0, 0, 0, 0])));
}

#[test]
fn parse_address_rejects_malformed_text() {
    for bad in [
        "", "1.2.3", "1.2.3.4.5", "256.1.1.1", "01.2.3.4", "1..2.3", "a.b.c.d", "1.2.3.4 ",
        " 1.2.3.4", "1.2.3.", ".1.2.3", "1000.1.1.1", "1.2.3.-4",
    ] {
        assert_eq!(parse_address(bad), None, "{:?}", bad);
    }
}

#[test]
fn format_address_writes_dotted_decimal() {
    assert_eq!(format_address(&ServerAddress::V4([192, 168, 0, 1])), "192.168.0.1");
    assert_eq!(format_address(&ServerAddress::V4([5, 6, 7, 8])), "5.6.7.8");
}

#[test]
fn address_text_round_trips() {
    for octets in [[0, 0, 0, 0], [255, 255, 255, 255], [9, 10, 99, 100], [1, 20, 200, 5]] {
        let a = ServerAddress::V4(octets);
        assert_eq!(parse_address(&format_address(&a)), Some(a));
    }
}

#[test]
fn decode_reads_all_three_fields() {
    let text = "name = \"foo\"\nversion = \"1.0\"\nserver_ip = \"1.2.3.4\"\n";
    assert_eq!(decode(text), Ok(config("foo", "1.0", [1, 2, 3, 4])));
}

#[test]
fn decode_ignores_other_keys() {
    let text = "name = \"foo\"\nversion = \"1.0\"\nserver_ip = \"1.2.3.4\"\nextra = 5\n";
    assert_eq!(decode(text), Ok(config("foo", "1.0", [1, 2, 3, 4])));
}

#[test]
fn decode_rejects_text_that_is_not_toml() {
    assert_eq!(decode("name = \"foo"), Err(DecodeError::Syntax));
    assert_eq!(decode("= ="), Err(DecodeError::Syntax));
}

#[test]
fn decode_rejects_missing_or_mistyped_fields() {
    assert_eq!(decode("name = \"foo\"\nversion = \"1.0\"\n"), Err(DecodeError::MissingField));
    assert_eq!(decode(""), Err(DecodeError::MissingField));
    assert_eq!(
        decode("name = 3\nversion = \"1.0\"\nserver_ip = \"1.2.3.4\"\n"),
        Err(DecodeError::MissingField)
    );
}

#[test]
fn decode_rejects_a_bad_address() {
    assert_eq!(
        decode("name = \"foo\"\nversion = \"1.0\"\nserver_ip = \"1.2.3\"\n"),
        Err(DecodeError::InvalidAddress)
    );
}

#[test]
fn encode_then_decode_gives_the_config_back() {
    for c in [
        config("foo", "1.0", [1, 2, 3, 4]),
        config("bar baz", "2.0-beta \"x\"", [5, 6, 7, 8]),
        config("", "", [0, 0, 0, 0]),
    ] {
        let text = encode(&c);
        assert_eq!(decode(&text), Ok(c));
    }
}

#[test]
fn encode_writes_each_field() {
    let text = encode(&config("foo", "1.1", [1, 2, 3, 4]));
    assert!(text.contains("name = \"foo\""), "{}", text);
    assert!(text.contains("version = \"1.1\""), "{}", text);
    assert!(text.contains("server_ip = \"1.2.3.4\""), "{}", text);
}

#[test]
fn table_round_trip() {
    let c = config("foo", "1.0", [10, 0, 0, 1]);
    assert_eq!(decode_table(&encode_table(&c)), Ok(c));
}

#[test]
fn with_version_changes_only_the_version() {
    let c = config("foo", "1.0", [1, 2, 3, 4]);
    assert_eq!(c.with_version("1.1".to_string()), config("foo", "1.1", [1, 2, 3, 4]));
}

#[test]
fn parse_address_reads_ipv6() {
    assert_eq!(parse_address("::1"), Some(ServerAddress::V6([0, 0, 0, 0, 0, 0, 0, 1])));
    assert_eq!(parse_address("::"), Some(ServerAddress::V6([0; 8])));
    assert_eq!(
        parse_address("2001:db8::ff00:42:8329"),
        Some(ServerAddress::V6([0x2001, 0xdb8, 0, 0, 0, 0xff00, 0x42, 0x8329]))
    );
    assert_eq!(
        parse_address("fe80::"),
        Some(ServerAddress::V6([0xfe80, 0, 0, 0, 0, 0, 0, 0]))
    );
    assert_eq!(
        parse_address("1:2:3:4:5:6:7:8"),
        Some(ServerAddress::V6([1, 2, 3, 4, 5, 6, 7, 8]))
    );
}

#[test]
fn parse_address_rejects_malformed_ipv6() {
    for bad in [
        ":::", "1:2:3:4:5:6:7", "1:2:3:4:5:6:7:8:9", "1::2::3", "12345::", "g::1", "1:::2",
        ":1:2:3:4:5:6:7", "1::2:3:4:5:6:7:8",
    ] {
        assert_eq!(parse_address(bad), None, "{:?}", bad);
    }
}

#[test]
fn parse_address_reads_every_ipv6_form_std_reads() {
    assert_eq!(
        parse_address("2001:DB8::1"),
        Some(ServerAddress::V6([0x2001, 0xdb8, 0, 0, 0, 0, 0, 1]))
    );
    assert_eq!(
        parse_address("2001:0db8::1"),
        Some(ServerAddress::V6([0x2001, 0xdb8, 0, 0, 0, 0, 0, 1]))
    );
    assert_eq!(
        parse_address("::ffff:1.2.3.4"),
        Some(ServerAddress::V6([0, 0, 0, 0, 0, 0xffff, 0x0102, 0x0304]))
    );
}

#[test]
fn format_address_writes_ipv6_groups() {
    let a = ServerAddress::V6([0x2001, 0xdb8, 0, 0, 0, 0xff00, 0x42, 0x8329]);
    assert_eq!(format_address(&a), "2001:db8:0:0:0:ff00:42:8329");
    assert_eq!(parse_address(&format_address(&a)), Some(a));
}

#[test]
fn decode_reads_an_ipv6_server() {
    let text = "name = \"foo\"\nversion = \"1.0\"\nserver_ip = \"::1\"\n";
    let c = decode(text).unwrap();
    assert_eq!(c.server_ip, ServerAddress::V6([0, 0, 0, 0, 0, 0, 0, 1]));
    assert_eq!(decode(&encode(&c)), Ok(c));
    let text = "name = \"foo\"\nversion = \"1.0\"\nserver_ip = \"2001:0DB8::ffff:1.2.3.4\"\n";
    let c = decode(text).unwrap();
    assert_eq!(c.server_ip, ServerAddress::V6([0x2001, 0xdb8, 0, 0, 0, 0xffff, 0x0102, 0x0304]));
    assert_eq!(decode(&encode(&c)), Ok(c));
}

#[test]
fn config_dir_writes_the_program_id_in_hex() {
    assert_eq!(helios::paths::config_dir(0x0100000000010000), "sd:/helios/0100000000010000");
    assert_eq!(helios::paths::config_dir(0xabc), "sd:/helios/0000000000000ABC");
    assert_eq!(helios::paths::config_dir(u64::MAX), "sd:/helios/FFFFFFFFFFFFFFFF");
}
