use yaroc::error::Error;
use yaroc::receive::{
    extract_cell_mac, extract_msh_mac, parse_timezone, receiver_topics, topic_kind, MacAddress,
    TopicKind, TzError,
};

#[test]
fn test_new() {
    let macs = vec![
        MacAddress::Meshtastic(0x12345678),
        MacAddress::Full(0xdeadbeef9876),
    ];
    let topics = receiver_topics(&macs, Some("cha"));
    assert_eq!(
        topics,
        vec![
            "yar/2/e/serial/!12345678",
            "yar/2/e/cha/!12345678",
            "yar/deadbeef9876/status",
            "yar/deadbeef9876/p",
        ]
    );
}

#[test]
fn receiver_topics_without_channel() {
    let macs = vec![MacAddress::Meshtastic(0xab), MacAddress::Full(0x1)];
    let topics = receiver_topics(&macs, None);
    assert_eq!(
        topics,
        vec![
            "yar/2/e/serial/!000000ab",
            "yar/000000000001/status",
            "yar/000000000001/p",
        ]
    );
}

#[test]
fn test_extract_cell_mac() {
    let mac_address = extract_cell_mac("yar/deadbeef9876/p").unwrap();
    assert_eq!("deadbeef9876", mac_address.format());
    assert!(extract_cell_mac("yar/deadbeef987").is_err());
}

#[test]
fn test_extract_msh_mac() {
    let mac_address = extract_msh_mac("yar/2/e/cha/!12345678").unwrap();
    assert_eq!("12345678", mac_address.format());
    assert!(extract_cell_mac("yar/2/e/cha/!1234567").is_err());
    assert!(extract_cell_mac("yar/2/e//!12345678").is_err());
}

#[test]
fn mac_addresses_parse_and_format() {
    assert_eq!(MacAddress::try_from("12345678"), Ok(MacAddress::Meshtastic(0x12345678)));
    assert_eq!(MacAddress::try_from("deadbeef9876"), Ok(MacAddress::Full(0xdeadbeef9876)));
    assert_eq!(MacAddress::try_from("123"), Err(Error::ValueError));
    assert_eq!(MacAddress::try_from("1234567g"), Err(Error::ParseError));
    assert_eq!(MacAddress::Full(0xab).format(), "0000000000ab");
    assert!(MacAddress::Full(1).is_full());
    assert!(!MacAddress::Meshtastic(1).is_full());
    assert_eq!(MacAddress::default(), MacAddress::Full(0x1234));
    for mac in [MacAddress::Meshtastic(0xfedcba98), MacAddress::Full(0x0123456789ab)] {
        assert_eq!(MacAddress::try_from(&mac.format()), Ok(mac));
    }
}

#[test]
fn topics_are_classified() {
    assert_eq!(
        topic_kind("yar/deadbeef9876/p"),
        Ok(TopicKind::Punches(MacAddress::Full(0xdeadbeef9876)))
    );
    assert_eq!(
        topic_kind("yar/deadbeef9876/status"),
        Ok(TopicKind::CellularStatus(MacAddress::Full(0xdeadbeef9876)))
    );
    assert_eq!(topic_kind("yar/deadbeef9876/x"), Err(Error::ValueError));
    assert_eq!(topic_kind("other/topic"), Err(Error::ParseError));
    assert_eq!(topic_kind("yar/2/e/serial"), Ok(TopicKind::MeshtasticSerial));
    assert_eq!(
        topic_kind("yar/2/e/longchannel/!12345678"),
        Ok(TopicKind::MeshtasticStatus(MacAddress::Meshtastic(0x12345678)))
    );
}

#[test]
fn subscribed_meshtastic_topics_are_status() {
    let status = Ok(TopicKind::MeshtasticStatus(MacAddress::Meshtastic(0x12345678)));
    assert_eq!(topic_kind("yar/2/e/cha/!12345678"), status);
    assert_eq!(topic_kind("yar/2/e/c/!12345678"), status);
    assert_eq!(topic_kind("yar/2/e/serial/!12345678"), status);
    let macs = vec![
        MacAddress::Meshtastic(0x12345678),
        MacAddress::Full(0xdeadbeef9876),
    ];
    for topic in receiver_topics(&macs, Some("cha")) {
        assert!(topic_kind(&topic).is_ok());
    }
    assert_eq!(topic_kind("yar/2/e/!1234567"), Err(Error::ParseError));
}

#[test]
fn test_parse_timezone() {
    assert_eq!(parse_timezone("UTC").unwrap(), 0);
    assert_eq!(parse_timezone("GMT").unwrap(), 0);
    assert_eq!(parse_timezone("+02:00").unwrap(), 7200);
    assert_eq!(parse_timezone("-05:30").unwrap(), -19800);
    assert_eq!(parse_timezone("3600").unwrap(), 3600);
    assert_eq!(parse_timezone("-7200").unwrap(), -7200);
    assert!(parse_timezone("Invalid").is_err());
    assert!(parse_timezone("+2:00").is_err());
    assert!(parse_timezone("+02:0").is_err());
}

#[test]
fn compact_offsets_are_hours_and_minutes() {
    assert_eq!(parse_timezone("+0200"), Ok(7200));
    assert_eq!(parse_timezone("-0530"), Ok(-19800));
    assert_eq!(parse_timezone("+2359"), Ok(86340));
    assert_eq!(parse_timezone("+0060"), Ok(60));
    assert_eq!(parse_timezone("+2400"), Ok(2400));
    assert_eq!(parse_timezone("-7200"), Ok(-7200));
    assert_eq!(parse_timezone("+99999"), Err(TzError::OutOfBounds));
    assert_eq!(parse_timezone("+ab00"), Err(TzError::InvalidFormat));
}

#[test]
fn timezone_errors() {
    assert_eq!(parse_timezone("86400"), Err(TzError::OutOfBounds));
    assert_eq!(parse_timezone("-86400"), Err(TzError::OutOfBounds));
    assert_eq!(parse_timezone("+25:00"), Err(TzError::InvalidFormat));
    assert_eq!(parse_timezone(""), Err(TzError::InvalidFormat));
    assert_eq!(parse_timezone("86399"), Ok(86399));
}

#[test]
fn mac_formats_read_back() {
    for mac in [
        MacAddress::Meshtastic(0),
        MacAddress::Meshtastic(u32::MAX),
        MacAddress::Full(0),
        MacAddress::Full(0xffff_ffff_ffff),
    ] {
        assert_eq!(MacAddress::try_from(&mac.format()), Ok(mac));
    }
    // A full address beyond 48 bits has more than 12 digits.
    assert_eq!(
        MacAddress::try_from(&MacAddress::Full(1 << 48).format()),
        Err(Error::ValueError)
    );
}

#[test]
fn host_info_names_are_bounded() {
    let host = yaroc::receive::HostInfo::new("spe01", MacAddress::Full(0xdeadbeef9876)).unwrap();
    assert_eq!(host.name, "spe01");
    assert_eq!(host.mac_address, MacAddress::Full(0xdeadbeef9876));
    assert!(yaroc::receive::HostInfo::new(&"n".repeat(20), MacAddress::default()).is_ok());
    assert_eq!(
        yaroc::receive::HostInfo::new(&"n".repeat(21), MacAddress::default()),
        Err(Error::BufferTooSmallError)
    );
}
