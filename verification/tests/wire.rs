use michoi::agent::{parse_arp_table, parse_mac};
use michoi::config::{subnet_broadcast, Config, ConfigError, SubnetError};
use michoi::ethernet::{
    build_udp_ipv4, internet_checksum, EthernetError, EthernetUdp, MacAddress,
};
use michoi::firewall::{flush_table_command, nft_rules, pad_silence_rules, RulesError};
use michoi::net::{parse_target, Ipv4Addr, SocketAddr};

#[test]
fn arp_table_parsing_picks_complete_entries() {
    let text = "IP address       HW type     Flags       HW address            Mask     Device\n\
                192.168.124.61   0x1         0x2         aa:bb:cc:dd:ee:3d     *        br-lan\n\
                192.168.124.2    0x1         0x0         00:00:00:00:00:00     *        br-lan\n";
    assert_eq!(
        parse_arp_table(text, Ipv4Addr::new(192, 168, 124, 61)),
        MacAddress::parse("aa:bb:cc:dd:ee:3d").ok()
    );
    // Incomplete (flags 0x0) entries are not trusted.
    assert_eq!(parse_arp_table(text, Ipv4Addr::new(192, 168, 124, 2)), None);
    assert_eq!(parse_arp_table(text, Ipv4Addr::new(10, 0, 0, 1)), None);
}

#[test]
fn subnet_broadcast_is_derived_from_cidr() {
    assert_eq!(
        subnet_broadcast("192.168.124.0/24").unwrap(),
        Ipv4Addr::new(192, 168, 124, 255)
    );
    assert_eq!(subnet_broadcast("10.1.2.3/16").unwrap(), Ipv4Addr::new(10, 1, 255, 255));
    assert_eq!(subnet_broadcast("10.0.0.0/30").unwrap(), Ipv4Addr::new(10, 0, 0, 3));
    assert!(subnet_broadcast("192.168.1.0").is_err());
    assert!(subnet_broadcast("192.168.1.0/33").is_err());
}

#[test]
fn builds_parseable_frame() {
    let source = MacAddress::parse("02:00:00:00:00:3d").unwrap();
    let destination = MacAddress::parse("02:00:00:00:00:02").unwrap();
    let frame = build_udp_ipv4(
        source,
        destination,
        Ipv4Addr::new(192, 168, 124, 61),
        Ipv4Addr::new(192, 168, 124, 2),
        10_000,
        10_000,
        b"PENGUIN0",
        7,
    )
    .unwrap();
    let parsed = EthernetUdp::parse(&frame).unwrap();
    assert_eq!(parsed.source_mac, source);
    assert_eq!(parsed.destination_mac, destination);
    assert_eq!(parsed.payload, b"PENGUIN0");
}

#[test]
fn a_frame_carries_a_valid_header_checksum() {
    let mac = MacAddress([2, 0, 0, 0, 0, 1]);
    let frame = build_udp_ipv4(
        mac,
        mac,
        Ipv4Addr::new(10, 0, 0, 1),
        Ipv4Addr::new(10, 0, 0, 2),
        1,
        2,
        b"x",
        0xffff,
    )
    .unwrap();
    // The sum over a header with its checksum is zero.
    assert_eq!(internet_checksum(&frame[14..34]), 0);
    // The example of RFC 1071.
    assert_eq!(internet_checksum(&[0x00, 0x01, 0xf2, 0x03, 0xf4, 0xf5, 0xf6, 0xf7]), 0x220d);
    assert_eq!(internet_checksum(&[0xff]), 0x00ff);
}

#[test]
fn frames_that_cannot_be_are_refused() {
    let mac = MacAddress([0; 6]);
    let ip = Ipv4Addr::new(1, 2, 3, 4);
    assert_eq!(
        build_udp_ipv4(mac, mac, ip, ip, 1, 1, &vec![0; 65_508], 1),
        Err(EthernetError::TooLarge)
    );
    assert!(build_udp_ipv4(mac, mac, ip, ip, 1, 1, &vec![0; 65_507], 1).is_ok());
    assert_eq!(EthernetUdp::parse(&[0; 40]).unwrap_err(), EthernetError::Frame);
    assert_eq!(MacAddress::parse("02:00:00:00:00").unwrap_err(), EthernetError::Mac);
    assert_eq!(MacAddress::parse("02:00:00:00:00:00:00").unwrap_err(), EthernetError::Mac);
    assert_eq!(MacAddress::parse("2:00:00:00:00:3d").unwrap_err(), EthernetError::Mac);
    assert_eq!(MacAddress::parse("+f:00:00:00:00:00").unwrap_err(), EthernetError::Mac);
    assert_eq!(parse_mac(&Some("+f:00:00:00:00:00".into())).unwrap_err(), EthernetError::Mac);
    assert_eq!(MacAddress::parse("Ff:0a:B1:00:9c:3D").unwrap(), MacAddress([255, 10, 177, 0, 156, 61]));
    assert_eq!(MacAddress::parse("02:00:00:00:00:g1").unwrap_err().message(), "MAC address must be six hexadecimal octets");
    assert_eq!(parse_mac(&None), Ok(None));
    assert_eq!(parse_mac(&Some(String::new())), Ok(None));
    assert_eq!(parse_mac(&Some("zz".into())), Err(EthernetError::Mac));
}

#[test]
fn a_vlan_tag_is_skipped() {
    let mac = MacAddress([2, 0, 0, 0, 0, 9]);
    let ip = Ipv4Addr::new(10, 0, 0, 1);
    let plain = build_udp_ipv4(mac, mac, ip, ip, 5, 6, b"hello", 1).unwrap();
    let mut tagged = plain[..12].to_vec();
    tagged.extend_from_slice(&[0x81, 0x00, 0x00, 0x05]);
    tagged.extend_from_slice(&plain[12..]);
    let parsed = EthernetUdp::parse(&tagged).unwrap();
    assert_eq!(parsed.payload, b"hello");
    assert_eq!(parsed.source_port, 5);
    assert_eq!(parsed.destination_port, 6);
}

fn configured() -> Config {
    let mut config = Config::default();
    config.intercom.pad_interface = "eth0.1".into();
    config.intercom.door_interface = "eth0.2".into();
    config.intercom.room_ip = Some(Ipv4Addr::new(192, 168, 124, 61));
    config
}

fn silence() -> String {
    pad_silence_rules(
        "eth0.1",
        "eth0.2",
        Ipv4Addr::new(192, 168, 124, 2),
        Ipv4Addr::new(192, 168, 124, 61),
        10_000,
    )
    .unwrap()
}

#[test]
fn manual_rule_is_interface_scoped() {
    let rules = nft_rules(&configured()).unwrap();
    assert!(rules.contains("iifname \"eth0.1\""));
    assert!(rules.contains("udp dport { 10000, 10008 }"));
    assert!(rules.contains("drop"));
}

#[test]
fn pad_silence_drops_both_directions_of_control() {
    let rules = silence();
    // door -> Pad (silences the ring and picture)
    assert!(rules
        .contains("iifname \"eth0.2\" ip saddr 192.168.124.2 udp dport 10000 counter drop"));
    // Pad -> door (blocks a late physical takeover)
    assert!(rules
        .contains("iifname \"eth0.1\" ip saddr 192.168.124.61 udp dport 10000 counter drop"));
    // Discovery is left alone.
    assert!(!rules.contains("10008"));
}

#[test]
fn silence_and_static_share_one_table() {
    assert!(silence().contains("table bridge michoi"));
    assert_eq!(
        flush_table_command(),
        "add table bridge michoi\ndelete table bridge michoi\n"
    );
}

#[test]
fn rules_need_their_interfaces() {
    let ip = Ipv4Addr::new(10, 0, 0, 1);
    assert_eq!(
        pad_silence_rules("CONFIGURE_ME", "eth1", ip, ip, 1).unwrap_err(),
        RulesError::PadInterface
    );
    assert_eq!(
        pad_silence_rules("eth0", "CONFIGURE_ME", ip, ip, 1).unwrap_err(),
        RulesError::DoorInterface
    );
    let mut config = configured();
    config.intercom.room_ip = None;
    assert_eq!(nft_rules(&config).unwrap_err(), RulesError::RoomIp);
}

#[test]
fn a_configuration_is_checked() {
    let mut config = Config::default();
    assert_eq!(config.validate(), Err(ConfigError::DeviceIdMissing));
    config.intercom.device_id = "S1".into();
    assert_eq!(config.validate(), Ok(()));
    config.media.fps = 0;
    assert_eq!(config.validate(), Err(ConfigError::NoFps));
    config.security.unlock_cooldown_ms = 1;
    assert_eq!(config.validate(), Err(ConfigError::CooldownTooShort));
    assert_eq!(
        config.intercom.discovery_broadcast(),
        Ok(Ipv4Addr::new(255, 255, 255, 255))
    );
    config.intercom.subnet = Some("10.0.0.0/8".into());
    assert_eq!(config.intercom.discovery_broadcast(), Ok(Ipv4Addr::new(10, 255, 255, 255)));
    config.intercom.subnet = Some("here".into());
    assert_eq!(config.validate(), Err(ConfigError::Subnet(SubnetError::Form)));
    assert_eq!(subnet_broadcast("10.0.0.0"), Err(SubnetError::Form));
    assert_eq!(subnet_broadcast("10.0.0/8"), Err(SubnetError::Address));
    assert_eq!(subnet_broadcast("10.0.0.0/x"), Err(SubnetError::Prefix));
    assert_eq!(subnet_broadcast("10.0.0.0/33"), Err(SubnetError::PrefixTooLong));
    assert_eq!(subnet_broadcast("10.0.0.7/0"), Ok(Ipv4Addr::new(255, 255, 255, 255)));
    assert_eq!(subnet_broadcast("10.0.0.7/32"), Ok(Ipv4Addr::new(10, 0, 0, 7)));
}

#[test]
fn a_target_is_an_address_or_a_socket() {
    let ip = Ipv4Addr::new(192, 168, 1, 5);
    assert_eq!(
        parse_target("192.168.1.5", None, 10_000),
        Some(SocketAddr::V4 { ip, port: 10_000 })
    );
    let full = SocketAddr::V4 { ip, port: 77 };
    assert_eq!(parse_target("192.168.1.5:77", Some(full), 10_000), Some(full));
    assert_eq!(parse_target("pad", None, 10_000), None);
    assert_eq!(parse_target("192.168.1.05", None, 10_000), None);
}
