use zerosni::addr::{parse_ipv4, push_ipv6, IpAddr, SocketAddr};
use zerosni::proxy_header::{build_proxy_header, format_peer_with_mac};

fn v4(a: u8, b: u8, c: u8, d: u8, port: u16) -> SocketAddr {
    SocketAddr::V4 {
        ip: u32::from_be_bytes([a, b, c, d]),
        port,
    }
}

fn v6(ip: u128, port: u16) -> SocketAddr {
    SocketAddr::V6 {
        ip,
        port,
        flowinfo: 0,
        scope_id: 0,
    }
}

fn ipv6_text(ip: u128) -> String {
    let mut out = String::new();
    push_ipv6(&mut out, ip);
    out
}

#[test]
fn builds_ipv4_proxy_header() {
    let src = v4(10, 0, 0, 1, 1234);
    let dst = v4(203, 0, 113, 10, 443);
    let header = build_proxy_header(src, dst);
    assert_eq!(header, b"PROXY TCP4 10.0.0.1 203.0.113.10 1234 443\r\n");
}

#[test]
fn builds_ipv6_proxy_header() {
    let src = v6(1, 5555);
    let dst = v6(1, 8443);
    let header = build_proxy_header(src, dst);
    assert_eq!(header, b"PROXY TCP6 ::1 ::1 5555 8443\r\n");
}

#[test]
fn mapped_ends_count_as_ipv4() {
    let mapped = v6(0xffff_0a00_0001, 1234);
    let dst = v4(203, 0, 113, 10, 443);
    assert_eq!(
        build_proxy_header(mapped, dst),
        build_proxy_header(v4(10, 0, 0, 1, 1234), dst)
    );
}

#[test]
fn mixed_ends_are_written_as_ipv6() {
    let header = build_proxy_header(v4(10, 0, 0, 1, 1), v6(1, 2));
    assert_eq!(header, b"PROXY TCP6 ::ffff:10.0.0.1 ::1 1 2\r\n");
}

#[test]
fn header_is_cut_at_its_spaces() {
    let header = build_proxy_header(v6(0xfe80 << 112, 65535), v4(1, 2, 3, 4, 0));
    let line = std::str::from_utf8(&header).unwrap();
    let words: Vec<&str> = line.strip_suffix("\r\n").unwrap().split(' ').collect();
    assert_eq!(
        words,
        ["PROXY", "TCP6", "fe80::", "::ffff:1.2.3.4", "65535", "0"]
    );
}

#[test]
fn different_ends_have_different_headers() {
    let ends = [
        v4(10, 0, 0, 1, 1),
        v4(10, 0, 0, 1, 11),
        v4(1, 0, 0, 1, 1),
        v6(1, 1),
        v6(0, 1),
        v6(1 << 112, 1),
        v6(1 << 16, 1),
        v6((1 << 112) + 1, 1),
        v6((1 << 112) + (1 << 64), 1),
    ];
    for (i, src) in ends.iter().enumerate() {
        for (j, other) in ends.iter().enumerate() {
            let same = build_proxy_header(*src, ends[3]) == build_proxy_header(*other, ends[3]);
            assert_eq!(same, i == j);
        }
    }
}

#[test]
fn ipv6_addresses_are_shortened() {
    assert_eq!(ipv6_text(0), "::");
    assert_eq!(ipv6_text(1), "::1");
    assert_eq!(
        ipv6_text(0x2001_0db8_0000_0000_0001_0000_0000_0001),
        "2001:db8::1:0:0:1"
    );
    assert_eq!(
        ipv6_text(0x2001_0db8_0000_0001_0001_0001_0001_0001),
        "2001:db8:0:1:1:1:1:1"
    );
    assert_eq!(
        ipv6_text(0xfe80_0000_0000_0000_0000_0000_0000_0000),
        "fe80::"
    );
    assert_eq!(
        ipv6_text(0x0001_0002_0003_0004_0005_0006_0007_abcd),
        "1:2:3:4:5:6:7:abcd"
    );
    assert_eq!(ipv6_text(0xffff_c000_0201), "::ffff:192.0.2.1");
}

#[test]
fn ipv4_addresses_are_read_strictly() {
    let parse = |s: &str| {
        let chars: Vec<char> = s.chars().collect();
        parse_ipv4(&chars)
    };
    assert_eq!(parse("1.2.3.4"), Some(0x0102_0304));
    assert_eq!(parse("255.255.255.255"), Some(0xffff_ffff));
    assert_eq!(parse("0.0.0.0"), Some(0));
    assert_eq!(parse("01.2.3.4"), None);
    assert_eq!(parse("1.2.3"), None);
    assert_eq!(parse("1.2.3.4.5"), None);
    assert_eq!(parse("256.2.3.4"), None);
    assert_eq!(parse("1.2.3."), None);
    assert_eq!(parse("1.2.3.4 "), None);
    assert_eq!(parse(""), None);
}

#[test]
fn canonical_form_unmaps_once() {
    assert_eq!(
        IpAddr::V6(0xffff_0a00_0001).to_canonical(),
        IpAddr::V4(0x0a00_0001)
    );
    assert_eq!(IpAddr::V6(1).to_canonical(), IpAddr::V6(1));
    assert_eq!(IpAddr::V4(5).to_canonical(), IpAddr::V4(5));
    assert_eq!(IpAddr::V4(5).to_v6(), 0xffff_0000_0005);
}

#[test]
fn peers_are_labelled_with_their_hardware_address() {
    let peer = v4(192, 168, 0, 2, 40000);
    assert_eq!(
        format_peer_with_mac(peer, Some("aa:bb:cc:dd:ee:ff")),
        "192.168.0.2:40000 (mac: aa:bb:cc:dd:ee:ff)"
    );
    assert_eq!(
        format_peer_with_mac(peer, None),
        "192.168.0.2:40000 (mac: unknown)"
    );
    assert_eq!(
        format_peer_with_mac(v6(1, 5), None),
        "[::1]:5 (mac: unknown)"
    );
    let scoped = SocketAddr::V6 {
        ip: 0xfe80_0000_0000_0000_0000_0000_0000_0001,
        port: 5,
        flowinfo: 9,
        scope_id: 3,
    };
    assert_eq!(
        format_peer_with_mac(scoped, None),
        "[fe80::1%3]:5 (mac: unknown)"
    );
}
