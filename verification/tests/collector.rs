use edepot::collector::raw_event_offsets;
use edepot::collector::{decode_raw_event, RAW_EVENT_SIZE};
use edepot::collector::{BuildError, EventSourceBuilder, EventSourceType, NetworkEventRaw};
use edepot::net::IpAddress;
use std::str::FromStr;

#[test]
fn test_network_event_raw_new() {
    let src_ip: [u8; 16] = [192, 168, 1, 100, 0, 0, 0, 0, 0, 0, 0, 0, 0, 0, 0, 0];
    let raw = NetworkEventRaw::new(2, src_ip, 0x0016, 6, 1234567890);

    assert_eq!(raw.family, 2);
    assert_eq!(raw.src_ip, src_ip);
    assert_eq!(raw.dst_port, 0x0016);
    assert_eq!(raw.protocol, 6);
    assert_eq!(raw.timestamp, 1234567890);
}

#[test]
fn test_to_network_event_ipv4() {
    let src_ip: [u8; 16] = [192, 168, 1, 100, 0, 0, 0, 0, 0, 0, 0, 0, 0, 0, 0, 0];
    let raw = NetworkEventRaw::new(2, src_ip, u16::to_be(22), 6, 1234567890);

    let event = raw.to_network_event();

    assert_eq!(event.family, 2);
    assert_eq!(event.src_ip, IpAddress::V4(u32::from_be_bytes([192, 168, 1, 100])));
    assert_eq!(event.dst_port, 22);
    assert_eq!(event.protocol, 6);
    assert_eq!(event.timestamp, 1234567890);
}

#[test]
fn test_to_network_event_ipv6() {
    let src_ip: [u8; 16] = [0x20, 0x01, 0x0d, 0xb8, 0, 0, 0, 0, 0, 0, 0, 0, 0, 0, 0, 0x01];
    let raw = NetworkEventRaw::new(10, src_ip, u16::to_be(80), 6, 1234567890);

    let event = raw.to_network_event();

    assert_eq!(event.family, 10);
    assert_eq!(event.src_ip, IpAddress::V6(0x2001_0db8_0000_0000_0000_0000_0000_0001));
    assert_eq!(event.dst_port, 80);
    assert_eq!(event.protocol, 6);
}

#[test]
fn mod_test_is_ipv4() {
    let ipv4_raw = NetworkEventRaw::new(2, [0u8; 16], 0, 0, 0);
    let ipv6_raw = NetworkEventRaw::new(10, [0u8; 16], 0, 0, 0);

    assert!(ipv4_raw.is_ipv4());
    assert!(!ipv6_raw.is_ipv4());
}

#[test]
fn mod_test_is_ipv6() {
    let ipv4_raw = NetworkEventRaw::new(2, [0u8; 16], 0, 0, 0);
    let ipv6_raw = NetworkEventRaw::new(10, [0u8; 16], 0, 0, 0);

    assert!(!ipv4_raw.is_ipv6());
    assert!(ipv6_raw.is_ipv6());
}

#[test]
fn test_network_event_raw_partial_eq() {
    let src_ip1: [u8; 16] = [192, 168, 1, 1, 0, 0, 0, 0, 0, 0, 0, 0, 0, 0, 0, 0];
    let src_ip2: [u8; 16] = [192, 168, 1, 2, 0, 0, 0, 0, 0, 0, 0, 0, 0, 0, 0, 0];

    let raw1 = NetworkEventRaw::new(2, src_ip1, 0x0016, 6, 0);
    let raw2 = NetworkEventRaw::new(2, src_ip1, 0x0016, 6, 0);
    let raw3 = NetworkEventRaw::new(2, src_ip2, 0x0016, 6, 0);

    assert_eq!(raw1, raw2);
    assert_ne!(raw1, raw3);
}

#[test]
fn test_event_source_type_from_str() {
    assert_eq!(EventSourceType::from_str("ebpf"), Ok(EventSourceType::Ebpf));
    assert_eq!(EventSourceType::from_str("procnet"), Ok(EventSourceType::ProcNet));
    assert_eq!(EventSourceType::from_str("hybrid"), Ok(EventSourceType::Hybrid));
    assert!(EventSourceType::from_str("invalid").is_err());
}

#[test]
fn test_event_source_type_display() {
    assert_eq!(EventSourceType::Ebpf.to_string(), "ebpf");
    assert_eq!(EventSourceType::ProcNet.to_string(), "procnet");
    assert_eq!(EventSourceType::Hybrid.to_string(), "hybrid");
}

#[test]
fn event_source_type_names_ignore_case() {
    assert_eq!(EventSourceType::parse("EBPF"), Ok(EventSourceType::Ebpf));
    assert_eq!(EventSourceType::parse("ProcNet"), Ok(EventSourceType::ProcNet));
    assert_eq!(EventSourceType::parse("HyBrId"), Ok(EventSourceType::Hybrid));
}

#[test]
fn event_source_type_refusal_names_the_text() {
    assert_eq!(
        EventSourceType::parse("Bogus"),
        Err("Invalid event source type: Bogus".to_string())
    );
    assert_eq!(
        EventSourceType::parse(""),
        Err("Invalid event source type: ".to_string())
    );
}

#[test]
fn event_source_type_name_round_trips() {
    for t in [EventSourceType::Ebpf, EventSourceType::ProcNet, EventSourceType::Hybrid] {
        assert_eq!(EventSourceType::parse(&t.to_string()), Ok(t));
    }
}

#[test]
fn builder_defaults_and_settings() {
    let b = EventSourceBuilder::new(EventSourceType::ProcNet);
    assert_eq!(b.source_type(), EventSourceType::ProcNet);
    assert_eq!(b.interface_name(), None);
    assert_eq!(b.poll_interval(), 1000);

    let b = b.interface("eth0").poll_interval_ms(250);
    assert_eq!(b.source_type(), EventSourceType::ProcNet);
    assert_eq!(b.interface_name(), Some("eth0"));
    assert_eq!(b.poll_interval(), 250);
}

#[test]
fn build_plan_falls_back_to_proc_net() {
    let procnet = EventSourceBuilder::new(EventSourceType::ProcNet).poll_interval_ms(500);
    let hybrid = EventSourceBuilder::new(EventSourceType::Hybrid)
        .interface("eth0")
        .poll_interval_ms(700);
    let ebpf = EventSourceBuilder::new(EventSourceType::Ebpf);

    assert_eq!(procnet.build_plan(), Ok(500));
    assert_eq!(hybrid.build_plan(), Ok(700));
    assert_eq!(ebpf.build_plan(), Err(BuildError::EbpfUnavailable));
}

#[test]
fn raw_ipv4_event_reads_first_four_bytes() {
    let src_ip: [u8; 16] = [10, 0, 0, 7, 9, 9, 9, 9, 9, 9, 9, 9, 9, 9, 9, 9];
    let raw = NetworkEventRaw::new(2, src_ip, u16::to_be(443), 6, 5);
    let event = raw.to_network_event();
    assert_eq!(event.src_ip, IpAddress::V4(0x0a000007));
    assert_eq!(event.dst_port, 443);
    assert_eq!(event.timestamp, 5);
}

#[test]
fn raw_event_of_other_family_reads_sixteen_bytes() {
    let src_ip: [u8; 16] = [0xfe, 0x80, 0, 0, 0, 0, 0, 0, 0, 0, 0, 0, 0, 0, 0, 2];
    let raw = NetworkEventRaw::new(99, src_ip, 0, 17, 0);
    let event = raw.to_network_event();
    assert_eq!(event.src_ip, IpAddress::V6(0xfe80_0000_0000_0000_0000_0000_0000_0002));
    assert_eq!(event.family, 99);
}

#[test]
fn raw_events_are_decoded_from_their_c_layout() {
    let mut buf = vec![0xeeu8; 3 + RAW_EVENT_SIZE];
    let o = 3;
    buf[o] = 2;
    for i in 0..16 {
        buf[o + 1 + i] = i as u8 + 1;
    }
    buf[o + 18] = 0x00;
    buf[o + 19] = 0x16;
    buf[o + 20] = 6;
    buf[o + 21] = 0;
    buf[o + 24..o + 32].copy_from_slice(&0x0102030405060708u64.to_le_bytes());

    let le = decode_raw_event(&buf, o, true);
    assert_eq!(le.family, 2);
    assert_eq!(le.src_ip, [1, 2, 3, 4, 5, 6, 7, 8, 9, 10, 11, 12, 13, 14, 15, 16]);
    assert_eq!(le.dst_port, 0x1600);
    assert_eq!(le.protocol, 6);
    assert_eq!(le._pad, 0);
    assert_eq!(le.timestamp, 0x0102030405060708);

    let be = decode_raw_event(&buf, o, false);
    assert_eq!(be.dst_port, 0x0016);
    assert_eq!(be.timestamp, 0x0807060504030201);
}

#[test]
fn raw_event_offsets_compare_the_count_as_bytes() {
    assert!(raw_event_offsets(0).is_empty());
    assert!(raw_event_offsets(31).is_empty());
    assert_eq!(raw_event_offsets(32), vec![0]);
    assert_eq!(raw_event_offsets(100), vec![0, 32, 64]);
}

#[test]
fn raw_port_is_read_in_the_hosts_byte_order() {
    let raw = NetworkEventRaw::new(2, [1u8; 16], 0x1600, 6, 0);
    assert_eq!(raw.to_network_event_in(true).dst_port, 0x0016);
    assert_eq!(raw.to_network_event_in(false).dst_port, 0x1600);
    let host = raw.to_network_event();
    let little = u16::from_ne_bytes([1, 0]) == 1;
    assert_eq!(host, raw.to_network_event_in(little));
}
