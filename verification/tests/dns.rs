use zerosni::addr::{IpAddr, SocketAddr};
use zerosni::connect::Attempts;
use zerosni::dns::{
    accept_packet, accept_reply, build_dns_query, mark_to_set, next_query_id, parse_response,
    query_step, validate_dns_hostname, AnswerData, DnsError, DnsPacket, QueryStep, RecordType,
    Resolution,
};
use zerosni::resolver::{ResolverCache, ResolverConfig, ResolverError, UrlHost, UrlParts};

fn v4(ip: u32, port: u16) -> SocketAddr {
    SocketAddr::V4 { ip, port }
}

fn v6(ip: u128, port: u16) -> SocketAddr {
    SocketAddr::V6 {
        ip,
        port,
        flowinfo: 0,
        scope_id: 0,
    }
}

/// A reply to the question for `a.test`, with the given code and answers.
fn reply(id: u16, code: u8, answers: &[(u16, &[u8])]) -> Vec<u8> {
    let mut out = id.to_be_bytes().to_vec();
    out.extend_from_slice(&[0x81, 0x80 | code]);
    out.extend_from_slice(&[0, 1, 0, answers.len() as u8, 0, 0, 0, 0]);
    out.extend_from_slice(b"\x01a\x04test\x00\x00\x01\x00\x01");
    for (ty, data) in answers {
        out.extend_from_slice(&[0xc0, 12]);
        out.extend_from_slice(&ty.to_be_bytes());
        out.extend_from_slice(&[0, 1, 0, 0, 0, 60]);
        out.extend_from_slice(&(data.len() as u16).to_be_bytes());
        out.extend_from_slice(data);
    }
    out
}

#[test]
fn queries_have_the_expected_bytes() {
    let mut counter: u16 = 0x1234;
    let (packet, id) = build_dns_query("www.example.com", RecordType::A, &mut counter).unwrap();
    assert_eq!(id, 0x1234);
    assert_eq!(counter, 0x1235);
    assert_eq!(
        packet,
        b"\x12\x34\x01\x00\x00\x01\x00\x00\x00\x00\x00\x00\x03www\x07example\x03com\x00\x00\x01\x00\x01"
    );
    let (packet, id) = build_dns_query("a", RecordType::Aaaa, &mut counter).unwrap();
    assert_eq!(id, 0x1235);
    assert_eq!(
        packet,
        b"\x12\x35\x01\x00\x00\x01\x00\x00\x00\x00\x00\x00\x01a\x00\x00\x1c\x00\x01"
    );
}

#[test]
fn longest_hostnames_can_be_asked_for() {
    let label = "x".repeat(62);
    let hostname = [label.as_str(); 4].join(".");
    assert_eq!(hostname.len(), 251);
    let mut counter: u16 = 7;
    let (packet, _) = build_dns_query(&hostname, RecordType::A, &mut counter).unwrap();
    assert_eq!(packet.len(), 12 + 252 + 1 + 4);
    assert_eq!(packet[12], 62);
}

#[test]
fn refused_hostnames_use_no_transaction_number() {
    let mut counter: u16 = 9;
    assert_eq!(
        build_dns_query("a..b", RecordType::A, &mut counter),
        Err(DnsError::EmptyLabel)
    );
    assert_eq!(counter, 9);
}

#[test]
fn hostnames_are_checked() {
    assert_eq!(validate_dns_hostname("www.example.com"), Ok(()));
    assert_eq!(validate_dns_hostname(""), Err(DnsError::InvalidHostname));
    assert_eq!(
        validate_dns_hostname(&"a.".repeat(128)),
        Err(DnsError::InvalidHostname)
    );
    assert_eq!(validate_dns_hostname("a..b"), Err(DnsError::EmptyLabel));
    assert_eq!(validate_dns_hostname(".a"), Err(DnsError::EmptyLabel));
    assert_eq!(validate_dns_hostname("a."), Err(DnsError::EmptyLabel));
    assert_eq!(validate_dns_hostname(&"x".repeat(62)), Ok(()));
    assert_eq!(
        validate_dns_hostname(&"x".repeat(63)),
        Err(DnsError::LongLabel)
    );
    assert_eq!(
        validate_dns_hostname(&format!("{}..b", "x".repeat(63))),
        Err(DnsError::LongLabel)
    );
    assert_eq!(
        validate_dns_hostname(&"\u{fc}".repeat(32)),
        Err(DnsError::LongLabel)
    );
}

#[test]
fn transaction_numbers_wrap_around() {
    let mut counter: u16 = 65534;
    assert_eq!(next_query_id(&mut counter), 65534);
    assert_eq!(next_query_id(&mut counter), 65535);
    assert_eq!(next_query_id(&mut counter), 0);
    assert_eq!(counter, 1);
}

#[test]
fn addresses_of_the_wanted_kind_are_taken() {
    let ipv6 = [0x20, 1, 0xd, 0xb8, 0, 0, 0, 0, 0, 0, 0, 0, 0, 0, 0, 1];
    let message = reply(
        77,
        0,
        &[(1, &[10, 0, 0, 1]), (28, &ipv6), (1, &[10, 0, 0, 2])],
    );
    assert_eq!(
        parse_response(&message, RecordType::A, 77),
        Ok(vec![IpAddr::V4(0x0a00_0001), IpAddr::V4(0x0a00_0002)])
    );
    assert_eq!(
        parse_response(&message, RecordType::Aaaa, 77),
        Ok(vec![IpAddr::V6(
            0x2001_0db8_0000_0000_0000_0000_0000_0001
        )])
    );
}

#[test]
fn unusable_replies_are_refused() {
    let message = reply(77, 0, &[(1, &[10, 0, 0, 1])]);
    assert_eq!(
        parse_response(&message, RecordType::A, 78),
        Err(DnsError::WrongTransaction)
    );
    assert_eq!(
        parse_response(&message[..5], RecordType::A, 77),
        Err(DnsError::Unparsable)
    );
    assert_eq!(
        parse_response(&reply(77, 3, &[]), RecordType::A, 77),
        Err(DnsError::Refused(3))
    );
    assert_eq!(
        parse_response(&reply(77, 0, &[]), RecordType::A, 77),
        Ok(Vec::new())
    );
}

#[test]
fn packets_are_judged_by_number_then_code() {
    let packet = DnsPacket {
        id: 1,
        response_code: 2,
        answers: vec![AnswerData::A(5), AnswerData::Other],
    };
    assert_eq!(
        accept_packet(&packet, RecordType::A, 2),
        Err(DnsError::WrongTransaction)
    );
    assert_eq!(
        accept_packet(&packet, RecordType::A, 1),
        Err(DnsError::Refused(2))
    );
    let packet = DnsPacket {
        response_code: 0,
        ..packet
    };
    assert_eq!(
        accept_packet(&packet, RecordType::A, 1),
        Ok(vec![IpAddr::V4(5)])
    );
}

#[test]
fn refusals_are_put_in_words() {
    assert_eq!(
        DnsError::InvalidHostname.message(),
        "hostname is not a valid DNS name"
    );
    assert_eq!(
        DnsError::EmptyLabel.message(),
        "hostname contains an empty DNS label"
    );
    assert_eq!(
        DnsError::LongLabel.message(),
        "hostname label must be shorter than 63 characters"
    );
    assert_eq!(DnsError::Unparsable.message(), "failed to parse DNS response");
    assert_eq!(
        DnsError::WrongTransaction.message(),
        "DNS response transaction ID mismatch"
    );
    assert_eq!(
        DnsError::Refused(3).message(),
        "resolver returned DNS error NameError"
    );
    assert_eq!(
        DnsError::Refused(9).message(),
        "resolver returned DNS error Reserved(9)"
    );
    assert_eq!(
        DnsError::WrongSource(v4(0x0102_0304, 5)).message(),
        "received DNS response from unexpected address 1.2.3.4:5"
    );
    assert_eq!(
        DnsError::NoResolverAddress.message(),
        "resolver host does not resolve to any addresses"
    );
}

#[test]
fn replies_come_from_the_resolver_asked() {
    let resolver = v4(0x7f00_0001, 53);
    let mut buf = vec![0u8; 32];
    buf[..8].copy_from_slice(b"response");
    assert_eq!(
        accept_reply(resolver, resolver, &buf, 8),
        Ok(b"response".to_vec())
    );
    let mapped = SocketAddr::V6 {
        ip: 0xffff_7f00_0001,
        port: 53,
        flowinfo: 0,
        scope_id: 0,
    };
    assert_eq!(
        accept_reply(resolver, mapped, &buf, 8),
        Ok(b"response".to_vec())
    );
    assert_eq!(accept_reply(resolver, resolver, &buf, 99), Ok(buf.clone()));
    assert_eq!(
        accept_reply(resolver, v4(0x7f00_0001, 54), &buf, 8),
        Err(DnsError::WrongSource(v4(0x7f00_0001, 54)))
    );
    assert_eq!(
        accept_reply(resolver, v4(0x7f00_0002, 53), &buf, 8),
        Err(DnsError::WrongSource(v4(0x7f00_0002, 53)))
    );
}

#[test]
fn lookups_ask_twice_and_keep_each_address_once() {
    let mut lookup = Resolution::new();
    assert_eq!(lookup.next_query(), Some(RecordType::A));
    lookup.accept(&vec![IpAddr::V4(1), IpAddr::V4(2), IpAddr::V4(1)]);
    assert_eq!(lookup.next_query(), Some(RecordType::Aaaa));
    lookup.accept(&vec![IpAddr::V6(1), IpAddr::V6(1)]);
    assert_eq!(lookup.next_query(), None);
    assert_eq!(
        lookup.finish(),
        vec![IpAddr::V4(1), IpAddr::V4(2), IpAddr::V6(1)]
    );
}

#[test]
fn zero_leaves_a_socket_unmarked() {
    assert_eq!(mark_to_set(0), None);
    assert_eq!(mark_to_set(7), Some(7));
}

#[test]
fn resolvers_are_read() {
    let addr = |ip: u32, port: u16| Ok(ResolverConfig { addr: v4(ip, port) });
    assert_eq!(ResolverConfig::parse("1.1.1.1"), addr(0x0101_0101, 53));
    assert_eq!(ResolverConfig::parse("1.1.1.1:5353"), addr(0x0101_0101, 5353));
    assert_eq!(ResolverConfig::parse("udp://9.9.9.9"), addr(0x0909_0909, 53));
    assert_eq!(
        ResolverConfig::parse("udp://9.9.9.9:54"),
        addr(0x0909_0909, 54)
    );
    assert_eq!(
        ResolverConfig::parse("tcp://9.9.9.9"),
        Err(ResolverError::NotUdp)
    );
    assert_eq!(
        ResolverConfig::parse("udp:///path"),
        Err(ResolverError::MissingHost)
    );
    assert_eq!(
        ResolverConfig::parse("dns.example"),
        Err(ResolverError::NotAnIpAddress)
    );
    assert_eq!(
        ResolverConfig::parse("1.1.1.1:notaport"),
        Err(ResolverError::InvalidAddress)
    );
}

#[test]
fn ipv6_resolvers_are_read() {
    let addr = |ip: u128, port: u16| Ok(ResolverConfig { addr: v6(ip, port) });
    let db8 = 0x2001_0db8_0000_0000_0000_0000_0000_0001;
    assert_eq!(ResolverConfig::parse("udp://[::1]:5353"), addr(1, 5353));
    assert_eq!(ResolverConfig::parse("udp://[::1]"), addr(1, 53));
    assert_eq!(ResolverConfig::parse("[::1]:5353"), addr(1, 5353));
    assert_eq!(ResolverConfig::parse("[2001:db8::1]"), addr(db8, 53));
    assert_eq!(ResolverConfig::parse("::1"), addr(1, 53));
    assert_eq!(ResolverConfig::parse("2001:db8::1"), addr(db8, 53));
    assert_eq!(
        ResolverConfig::parse("udp://::1"),
        Err(ResolverError::InvalidAddress)
    );
    assert_eq!(
        ResolverConfig::parse("[::g]"),
        Err(ResolverError::InvalidAddress)
    );
}

#[test]
fn queries_are_repeated_and_given_up() {
    let mut waited: u64 = 0;
    let mut sent = 0;
    while let QueryStep::SendThenWait(seconds) = query_step(waited) {
        sent += 1;
        waited += seconds;
    }
    assert_eq!(sent, 5);
    assert_eq!(waited, 5);
    assert_eq!(query_step(u64::MAX), QueryStep::TimedOut);
}

#[test]
fn scheme_and_default_port_may_be_left_out() {
    let plain = ResolverConfig::parse("8.8.4.4");
    assert!(plain.is_ok());
    for same in ["8.8.4.4:53", "udp://8.8.4.4", "udp://8.8.4.4:53"] {
        assert_eq!(ResolverConfig::parse(same), plain);
    }
}

#[test]
fn resolver_refusals_are_put_in_words() {
    assert_eq!(
        ResolverError::InvalidAddress.message(),
        "invalid resolver address"
    );
    assert_eq!(ResolverError::NotUdp.message(), "resolver must use udp://");
    assert_eq!(ResolverError::MissingHost.message(), "resolver missing host");
    assert_eq!(
        ResolverError::NotAnIpAddress.message(),
        "host is not a valid ip address"
    );
}

#[test]
fn url_parts_name_a_resolver() {
    let parts = |scheme: &str, host: Option<&str>, port: Option<u16>| UrlParts {
        scheme: scheme.to_string(),
        host: host.map(|h| UrlHost::Name(h.to_string())),
        port,
    };
    assert_eq!(
        ResolverConfig::of_parts(&parts("udp", Some("8.8.8.8"), None)),
        Ok(ResolverConfig {
            addr: v4(0x0808_0808, 53)
        })
    );
    assert_eq!(
        ResolverConfig::of_parts(&parts("udp", Some("8.8.8.8"), Some(1))),
        Ok(ResolverConfig {
            addr: v4(0x0808_0808, 1)
        })
    );
    assert_eq!(
        ResolverConfig::of_parts(&parts("udp", None, Some(1))),
        Err(ResolverError::MissingHost)
    );
    assert_eq!(
        ResolverConfig::of_parts(&parts("http", None, Some(1))),
        Err(ResolverError::NotUdp)
    );
    assert_eq!(
        ResolverConfig::of_parts(&parts("udp", Some("dns.example"), None)),
        Err(ResolverError::NotAnIpAddress)
    );
    let address = |host: UrlHost, port: Option<u16>| UrlParts {
        scheme: "udp".to_string(),
        host: Some(host),
        port,
    };
    assert_eq!(
        ResolverConfig::of_parts(&address(UrlHost::V6(1), Some(5353))),
        Ok(ResolverConfig { addr: v6(1, 5353) })
    );
    assert_eq!(
        ResolverConfig::of_parts(&address(UrlHost::V4(9), None)),
        Ok(ResolverConfig { addr: v4(9, 53) })
    );
}

#[test]
fn kept_resolvers_do_not_change_the_answer() {
    let mut cache = ResolverCache::new();
    let first = cache.get_resolver("1.1.1.1");
    assert_eq!(first, ResolverConfig::parse("1.1.1.1"));
    assert_eq!(cache.get_resolver("1.1.1.1"), first);
    assert_eq!(cache.get_resolver("tcp://x"), Err(ResolverError::NotUdp));
    assert_eq!(cache.get_resolver("tcp://x"), Err(ResolverError::NotUdp));
}

#[test]
fn a_resolver_without_addresses_is_refused() {
    assert!(matches!(
        Attempts::<u8>::at_resolver(Vec::new()),
        Err(DnsError::NoResolverAddress)
    ));
    let attempts = Attempts::<u8>::at_resolver(vec![v4(1, 53)]);
    assert_eq!(
        attempts.ok().and_then(|a| a.next_target()),
        Some(v4(1, 53))
    );
}
