use zerosni::addr::{IpAddr, SocketAddr};
use zerosni::arp::{arp_needle, find_mac, lookup_mac_from_arp};
use zerosni::connect::{check_connect_error, connect_pending, Attempts, IoFailure, SocketState};
use zerosni::hello::ClientHelloCapture;
use zerosni::proxy_header::ProxyHeader;
use zerosni::relay::{
    after_read, mirror_frame, next_chunk, relay_result, upload_prelude, ChunkStep, Direction,
    Prefix, ReadStep,
};
use zerosni::route::ProxyContext;
use zerosni::rule_table::{MirrorAddr, RuleOverride, RuleTable, TlsInterceptConfig};
use zerosni::session::{Action, Event, Session};

fn v4(ip: u32, port: u16) -> SocketAddr {
    SocketAddr::V4 { ip, port }
}

fn peer() -> SocketAddr {
    v4(0x0a00_0002, 40000)
}

fn context(enable_proxy_protocol: bool) -> ProxyContext {
    ProxyContext {
        default_resolver: "1.1.1.1".to_string(),
        default_fwmark: 5,
        enable_proxy_protocol,
    }
}

fn capture(hostname: Option<&str>) -> ClientHelloCapture {
    ClientHelloCapture {
        hostname: hostname.map(|h| h.to_string()),
        buffer: b"hello".to_vec(),
    }
}

fn intercepting(match_fwmark: Option<u32>) -> RuleTable {
    let mut table = RuleTable::new();
    let rule = RuleOverride {
        resolver: None,
        direct: Some(v4(0x0a00_0001, 8443)),
        fwmark: 9,
        fwmark_set: true,
        tls_intercept: Some(TlsInterceptConfig {
            mirror: MirrorAddr::Client(9000),
            ca_cert: "ca.crt".to_string(),
            ca_key: "ca.key".to_string(),
            match_fwmark,
        }),
    };
    if let Err(e) = table.add_rule("a.test", rule) {
        panic!("{}", e.message());
    }
    table
}

fn next(step: (Option<Session>, Action)) -> (Session, Action) {
    match step {
        (Some(session), action) => (session, action),
        _ => panic!("the session should go on"),
    }
}

#[test]
fn named_server_is_resolved_connected_and_relayed() {
    let (session, action) = Session::start(&context(false), None, peer(), capture(Some("a.test")));
    assert!(matches!(action, Action::Resolve { resolver, hostname, fwmark: 5 }
        if resolver == "1.1.1.1" && hostname == "a.test"));
    assert!(session.expects(&Event::Resolved(Vec::new())));
    assert!(!session.expects(&Event::Connected));
    let (session, action) = next(session.step(Event::Resolved(vec![IpAddr::V4(1)])));
    assert!(session.expects(&Event::Connected));
    assert!(matches!(action, Action::ConnectToAny { candidates, fwmark: 5 }
        if candidates == vec![IpAddr::V4(1)]));
    let (ended, action) = session.step(Event::Connected);
    assert!(ended.is_none());
    assert!(matches!(action, Action::Relay { ends: None, initial } if initial == b"hello"));
}

#[test]
fn relay_names_both_ends_where_asked() {
    let (session, _) = Session::start(&context(true), None, peer(), capture(Some("a.test")));
    let (session, _) = next(session.step(Event::Resolved(vec![IpAddr::V4(1)])));
    let (session, action) = next(session.step(Event::Connected));
    assert!(matches!(action, Action::ReadUpstreamAddress));
    let (ended, action) = session.step(Event::UpstreamAddress(v4(1, 443)));
    assert!(ended.is_none());
    match action {
        Action::Relay { ends, initial } => {
            assert_eq!(
                ends,
                Some(ProxyHeader {
                    src: peer(),
                    dst: v4(1, 443)
                })
            );
            assert_eq!(initial, b"hello");
        }
        _ => panic!("relay expected"),
    }
}

#[test]
fn hostname_without_addresses_ends_the_session() {
    let (session, _) = Session::start(&context(false), None, peer(), capture(Some("a.test")));
    let (ended, action) = session.step(Event::Resolved(Vec::new()));
    assert!(ended.is_none());
    assert!(matches!(action, Action::NoAnswers { hostname: Some(h) } if h == "a.test"));
}

#[test]
fn direct_rule_is_connected_at_once() {
    let table = intercepting(None);
    let (session, action) = Session::start(
        &context(false),
        Some(&table),
        peer(),
        capture(Some("A.test")),
    );
    assert!(
        matches!(action, Action::ConnectTo { addr, fwmark: 9 } if addr == v4(0x0a00_0001, 8443))
    );
    let (ended, action) = session.step(Event::Connected);
    assert!(ended.is_none());
    assert!(
        matches!(action, Action::Intercept { config, hostname, client_hello, ends: None }
        if config.ca_key == "ca.key" && hostname == "A.test" && client_hello == b"hello")
    );
}

#[test]
fn interception_waits_for_the_mark() {
    let table = intercepting(Some(100));
    for (mark, wanted) in [(Some(100), true), (Some(99), false), (None, false)] {
        let (session, _) = Session::start(
            &context(false),
            Some(&table),
            peer(),
            capture(Some("a.test")),
        );
        let (session, action) = next(session.step(Event::Connected));
        assert!(matches!(action, Action::ReadClientMark));
        let (ended, action) = session.step(Event::ClientMark(mark));
        assert!(ended.is_none());
        assert_eq!(matches!(action, Action::Intercept { .. }), wanted);
        assert_eq!(matches!(action, Action::Relay { .. }), !wanted);
    }
}

#[test]
fn intercepted_connections_begin_with_a_header_too() {
    let table = intercepting(Some(100));
    let (session, _) = Session::start(
        &context(true),
        Some(&table),
        peer(),
        capture(Some("a.test")),
    );
    let (session, _) = next(session.step(Event::Connected));
    let (session, action) = next(session.step(Event::ClientMark(Some(100))));
    assert!(matches!(action, Action::ReadUpstreamAddress));
    let upstream = v4(0x0a00_0001, 8443);
    let (ended, action) = session.step(Event::UpstreamAddress(upstream));
    assert!(ended.is_none());
    match action {
        Action::Intercept {
            ends,
            client_hello,
            ..
        } => {
            assert_eq!(
                ends,
                Some(ProxyHeader {
                    src: peer(),
                    dst: upstream
                })
            );
            assert_eq!(client_hello, b"hello");
        }
        _ => panic!("interception expected"),
    }
}

#[test]
fn unreadable_mark_counts_as_zero() {
    let table = intercepting(Some(0));
    let (session, _) = Session::start(
        &context(false),
        Some(&table),
        peer(),
        capture(Some("a.test")),
    );
    let (session, _) = next(session.step(Event::Connected));
    let (_, action) = session.step(Event::ClientMark(None));
    assert!(matches!(action, Action::Intercept { .. }));
}

#[test]
fn unnamed_server_is_bypassed() {
    let (session, action) = Session::start(&context(false), None, peer(), capture(None));
    assert!(matches!(action, Action::FindOriginalDestination));
    let (session, action) = next(session.step(Event::OriginalDestination {
        destination: IpAddr::V4(7),
        local: IpAddr::V4(8),
    }));
    assert!(matches!(
        action,
        Action::Bypass {
            destination: IpAddr::V4(7),
            fwmark: 5
        }
    ));
    let (_, action) = session.step(Event::Connected);
    assert!(matches!(action, Action::Relay { ends: None, initial } if initial == b"hello"));
}

#[test]
fn proxy_does_not_connect_to_itself() {
    let (session, _) = Session::start(&context(false), None, peer(), capture(None));
    let (ended, action) = session.step(Event::OriginalDestination {
        destination: IpAddr::V6(0xffff_0000_0008),
        local: IpAddr::V4(8),
    });
    assert!(ended.is_none());
    assert!(matches!(action, Action::Close));
}

#[test]
fn prelude_holds_header_then_first_bytes() {
    assert_eq!(
        upload_prelude(Some(b"proxy".to_vec()), &b"hello".to_vec()),
        b"proxyhello"
    );
    assert_eq!(upload_prelude(None, &b"hello".to_vec()), b"hello");
}

#[test]
fn prefix_is_read_before_the_stream() {
    let mut prefix = Prefix::new(b"prefix".to_vec());
    let mut read = Vec::new();
    let mut socket: &[u8] = b"socket";
    while read.len() < 12 {
        match prefix.read(4) {
            Some(bytes) => read.extend_from_slice(&bytes),
            None => {
                read.push(socket[0]);
                socket = &socket[1..];
            }
        }
    }
    assert_eq!(&read, b"prefixsocket");
    assert_eq!(prefix.read(4), None);
    let mut prefix = Prefix::new(b"ab".to_vec());
    assert_eq!(prefix.read(0), Some(Vec::new()));
    assert_eq!(prefix.read(9), Some(b"ab".to_vec()));
    assert_eq!(prefix.read(9), None);
}

#[test]
fn mirror_frames_carry_direction_and_size() {
    assert_eq!(
        mirror_frame(Direction::ClientToServer, b"abc"),
        b"\x00\x03\x00\x00\x00abc"
    );
    let data = vec![9u8; 0x0102_03];
    let frame = mirror_frame(Direction::ServerToClient, &data);
    assert_eq!(&frame[..5], &[1, 3, 2, 1, 0]);
    assert_eq!(&frame[5..], &data[..]);
}

#[test]
fn mirror_gets_what_is_passed_on() {
    let buf = b"abcdef";
    match next_chunk(Direction::ServerToClient, buf, Ok(2)) {
        ChunkStep::Forward { frame, len } => {
            assert_eq!(frame, b"\x01\x02\x00\x00\x00ab");
            assert_eq!(len, 2);
        }
        _ => panic!("a frame expected"),
    }
    let next = |read| next_chunk(Direction::ServerToClient, buf, read);
    assert!(matches!(next(Ok(0)), ChunkStep::Finished));
    assert!(matches!(
        next(Err(IoFailure::UnexpectedEof)),
        ChunkStep::Finished
    ));
    assert!(matches!(
        next(Err(IoFailure::ConnectionReset)),
        ChunkStep::Failed(IoFailure::ConnectionReset)
    ));
}

#[test]
fn ends_and_failures_are_told_apart() {
    assert_eq!(after_read(Ok(0)), ReadStep::Finished);
    assert_eq!(after_read(Ok(3)), ReadStep::Forward(3));
    assert_eq!(
        after_read(Err(IoFailure::UnexpectedEof)),
        ReadStep::Finished
    );
    assert_eq!(
        after_read(Err(IoFailure::Other)),
        ReadStep::Failed(IoFailure::Other)
    );
    assert_eq!(relay_result(Ok(())), Ok(()));
    assert_eq!(relay_result(Err(IoFailure::BrokenPipe)), Ok(()));
    assert_eq!(relay_result(Err(IoFailure::ConnectionReset)), Ok(()));
    assert_eq!(
        relay_result(Err(IoFailure::UnexpectedEof)),
        Err(IoFailure::UnexpectedEof)
    );
}

#[test]
fn candidates_are_tried_in_order() {
    let attempts = Attempts::<&str>::at_candidates(&[IpAddr::V4(1), IpAddr::V6(2)]);
    assert_eq!(attempts.next_target(), Some(v4(1, 443)));
    let attempts = attempts.failed("first");
    assert_eq!(
        attempts.next_target(),
        Some(SocketAddr::V6 {
            ip: 2,
            port: 443,
            flowinfo: 0,
            scope_id: 0
        })
    );
    let attempts = attempts.failed("second");
    assert_eq!(attempts.next_target(), None);
    assert_eq!(attempts.into_error(), Some("second"));
    let none = Attempts::<&str>::at_candidates(&[]);
    assert_eq!(none.next_target(), None);
    assert_eq!(none.into_error(), None);
}

#[test]
fn pending_connections_are_no_failures() {
    assert!(connect_pending(IoFailure::WouldBlock, None, 115));
    assert!(connect_pending(IoFailure::Interrupted, Some(4), 115));
    assert!(connect_pending(IoFailure::Other, Some(115), 115));
    assert!(!connect_pending(IoFailure::Other, Some(111), 115));
    assert!(!connect_pending(IoFailure::ConnectionReset, None, 115));
    assert_eq!(check_connect_error(0, 0), SocketState::Connected);
    assert_eq!(check_connect_error(0, 111), SocketState::Failed(111));
    assert_eq!(check_connect_error(-1, 111), SocketState::Unknown);
}

const ARP: &str = "IP address       HW type     Flags       HW address            Mask     Device
10.0.0.9         0x1         0x0         00:00:00:00:00:00     *        eth0
10.0.0.9         0x1         0x2         AA:BB:CC:00:11:22     *        eth0
10.0.0.10        0x1         0x2
nonsense         0x1         0x2         AA:BB:CC:00:11:33     *        eth0
10.0.0.11\t0x1\t0x2\tAA:BB:CC:00:11:44\r
";

#[test]
fn hardware_addresses_are_found() {
    assert_eq!(
        find_mac(ARP, 0x0a00_0009).as_deref(),
        Some("aa:bb:cc:00:11:22")
    );
    assert_eq!(find_mac(ARP, 0x0a00_000a), None);
    assert_eq!(
        find_mac(ARP, 0x0a00_000b).as_deref(),
        Some("aa:bb:cc:00:11:44")
    );
    assert_eq!(find_mac(ARP, 0x0a00_000c), None);
    assert_eq!(find_mac("10.0.0.9 1 2 aa:bb", 0x0a00_0009), None);
}

#[test]
fn table_of_neighbours_is_text() {
    assert_eq!(
        lookup_mac_from_arp(ARP.as_bytes().to_vec(), 0x0a00_0009).as_deref(),
        Some("aa:bb:cc:00:11:22")
    );
    let mut broken = ARP.as_bytes().to_vec();
    broken.push(0xff);
    assert_eq!(lookup_mac_from_arp(broken, 0x0a00_0009), None);
}

#[test]
fn peers_are_looked_up_by_ipv4() {
    assert_eq!(arp_needle(IpAddr::V4(5)), Some(5));
    assert_eq!(arp_needle(IpAddr::V6(0xffff_0000_0005)), Some(5));
    assert_eq!(arp_needle(IpAddr::V6(1)), None);
}
