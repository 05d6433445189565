//! The PROXY protocol header, and the label of a peer in the log.

use crate::addr;
use crate::addr::{IpAddr, SocketAddr};
use crate::addr_laws;
use crate::text;
use vstd::prelude::*;
use vstd::string::{StrSliceExecFns, StringExecFns};
use vstd::utf8;

verus! {

/// The two ends of a connection, as a PROXY header names them.
#[derive(Clone, Copy, Debug, PartialEq, Eq, Structural)]
pub struct ProxyHeader {
    pub src: SocketAddr,
    pub dst: SocketAddr,
}

/// The words of a PROXY header, version 1: the protocol, the two addresses, the two ports.
pub open spec fn header_words(h: ProxyHeader) -> Seq<Seq<char>> {
    let ports = seq![text::decimal(h.src.port() as nat), text::decimal(h.dst.port() as nat)];
    match (h.src.ip().canonical(), h.dst.ip().canonical()) {
        (IpAddr::V4(s), IpAddr::V4(d)) => seq![
            "PROXY"@,
            "TCP4"@,
            addr::ipv4_text(s),
            addr::ipv4_text(d),
        ] + ports,
        (s, d) => seq![
            "PROXY"@,
            "TCP6"@,
            addr::ipv6_text(s.as_v6()),
            addr::ipv6_text(d.as_v6()),
        ] + ports,
    }
}

/// A PROXY header, version 1: its words on one line.
pub open spec fn header_text(h: ProxyHeader) -> Seq<char> {
    text::join(header_words(h), ' ') + seq!['\r', '\n']
}

/// The label of a peer: its address, and its hardware address if that is known.
pub open spec fn peer_label(peer: SocketAddr, mac: Option<Seq<char>>) -> Seq<char> {
    match mac {
        Some(mac) => peer.text() + " (mac: "@ + mac + ")"@,
        None => peer.text() + " (mac: unknown)"@,
    }
}

/// Six pieces joined by spaces, written out.
proof fn lemma_join6(p: Seq<Seq<char>>)
    requires
        p.len() == 6,
    ensures
        text::join(p, ' ') == p[0].push(' ') + p[1].push(' ') + p[2].push(' ') + p[3].push(' ')
            + p[4].push(' ') + p[5],
{
    reveal_with_fuel(text::join, 6);
    assert(p.drop_last().drop_last().drop_last().drop_last().drop_last()[0] == p[0]);
    assert(text::join(p, ' ') == p[0].push(' ') + p[1].push(' ') + p[2].push(' ') + p[3].push(' ')
        + p[4].push(' ') + p[5]);
}

/// Builds the PROXY header for a connection. IPv4-mapped addresses count as IPv4; where only one end
/// is IPv4, it is written in its mapped form.
pub fn build_proxy_header(src: SocketAddr, dst: SocketAddr) -> (r: Vec<u8>)
    ensures
        r@ == utf8::encode_utf8(header_text(ProxyHeader { src, dst })),
{
    let mut out = String::from_str("PROXY");
    out.push(' ');
    match (src.ip().to_canonical(), dst.ip().to_canonical()) {
        (IpAddr::V4(s), IpAddr::V4(d)) => {
            out.append("TCP4");
            out.push(' ');
            addr::push_ipv4(&mut out, s);
            out.push(' ');
            addr::push_ipv4(&mut out, d);
        },
        (s, d) => {
            out.append("TCP6");
            out.push(' ');
            addr::push_ipv6(&mut out, s.to_v6());
            out.push(' ');
            addr::push_ipv6(&mut out, d.to_v6());
        },
    }
    out.push(' ');
    text::push_decimal(&mut out, src.port() as u32);
    out.push(' ');
    text::push_decimal(&mut out, dst.port() as u32);
    out.push('\r');
    out.push('\n');
    proof {
        let h = ProxyHeader { src, dst };
        lemma_join6(header_words(h));
        assert(out@ == header_text(h));
    }
    out.as_str().as_bytes_vec()
}

/// Labels a peer for the log.
pub fn format_peer_with_mac(peer: SocketAddr, mac: Option<&str>) -> (r: String)
    ensures
        r@ == peer_label(
            peer,
            match mac {
                Some(mac) => Some(mac@),
                None => None,
            },
        ),
{
    let mut out = String::new();
    peer.push_text(&mut out);
    assert(out@ == peer.text());
    match mac {
        Some(mac) => out.concat(" (mac: ").concat(mac).concat(")"),
        None => out.concat(" (mac: unknown)"),
    }
}

/// A header does not tell an IPv4 address from its mapped form.
pub proof fn law_mapped_ends_as_ipv4(ip: u32, src: SocketAddr, dst: SocketAddr, port: u16)
    ensures
        header_text(ProxyHeader { src, dst: SocketAddr::of(IpAddr::V4(ip), port) }) == header_text(
            ProxyHeader { src, dst: SocketAddr::of(IpAddr::V6(addr::ipv6_mapped(ip)), port) },
        ),
        header_text(ProxyHeader { src: SocketAddr::of(IpAddr::V4(ip), port), dst }) == header_text(
            ProxyHeader { src: SocketAddr::of(IpAddr::V6(addr::ipv6_mapped(ip)), port), dst },
        ),
{
    addr::law_mapped_is_canonical(ip);
}

/// Both addresses of a header are of one family: two IPv4 ends give a TCP4 header, all others a TCP6
/// header.
pub proof fn law_one_family(h: ProxyHeader)
    ensures
        header_words(h).len() == 6,
        h.src.ip().canonical() is V4 && h.dst.ip().canonical() is V4 ==> header_words(h)[1]
            == "TCP4"@,
        h.src.ip().canonical() is V6 || h.dst.ip().canonical() is V6 ==> header_words(h)[1]
            == "TCP6"@,
{
}

/// The receiver of a header, cutting the line at its spaces, reads back exactly the six words.
pub proof fn law_header_read_back(h: ProxyHeader)
    ensures
        text::split(header_text(h).take(header_text(h).len() - 2), ' ') == header_words(h),
{
    let words = header_words(h);
    reveal_strlit("PROXY");
    reveal_strlit("TCP4");
    reveal_strlit("TCP6");
    text::lemma_numeral_without(h.src.port() as nat, 10, ' ');
    text::lemma_numeral_without(h.dst.port() as nat, 10, ' ');
    match (h.src.ip().canonical(), h.dst.ip().canonical()) {
        (IpAddr::V4(s), IpAddr::V4(d)) => {
            addr_laws::lemma_ipv4_text_without(s, ' ');
            addr_laws::lemma_ipv4_text_without(d, ' ');
        },
        (s, d) => {
            addr_laws::lemma_ipv6_text_without(s.as_v6(), ' ');
            addr_laws::lemma_ipv6_text_without(d.as_v6(), ' ');
        },
    }
    assert forall|i: int| 0 <= i < words.len() implies !#[trigger] words[i].contains(' ') by {
        assert(i == 0 || i == 1 || i == 2 || i == 3 || i == 4 || i == 5);
    }
    text::lemma_split_join(words, ' ');
    assert(header_text(h).take(header_text(h).len() - 2) == text::join(words, ' '));
}

/// A header says which two ends it is for: no other two ends have the same header.
pub proof fn law_header_unambiguous(a: ProxyHeader, b: ProxyHeader)
    requires
        header_text(a) == header_text(b),
    ensures
        a.src.ip().canonical() == b.src.ip().canonical(),
        a.dst.ip().canonical() == b.dst.ip().canonical(),
        a.src.port() == b.src.port(),
        a.dst.port() == b.dst.port(),
{
    law_header_read_back(a);
    law_header_read_back(b);
    law_one_family(a);
    law_one_family(b);
    reveal_strlit("TCP4");
    reveal_strlit("TCP6");
    assert("TCP4"@[3] != "TCP6"@[3]);
    let (v, w) = (header_words(a), header_words(b));
    assert(v[1] == w[1] && v[2] == w[2] && v[3] == w[3] && v[4] == w[4] && v[5] == w[5]);
    text::lemma_numeral_unique(a.src.port() as nat, b.src.port() as nat, 10);
    text::lemma_numeral_unique(a.dst.port() as nat, b.dst.port() as nat, 10);
    let (s, d) = (a.src.ip().canonical(), a.dst.ip().canonical());
    let (t, e) = (b.src.ip().canonical(), b.dst.ip().canonical());
    if s is V4 && d is V4 {
        addr::lemma_ipv4_text_names(s->V4_0, t->V4_0);
        addr::lemma_ipv4_text_names(d->V4_0, e->V4_0);
    } else {
        addr_laws::law_ipv6_text_unambiguous(s.as_v6(), t.as_v6());
        addr_laws::law_ipv6_text_unambiguous(d.as_v6(), e.as_v6());
        addr_laws::law_canonical_by_ipv6_form(a.src.ip(), b.src.ip());
        addr_laws::law_canonical_by_ipv6_form(a.dst.ip(), b.dst.ip());
    }
}

/// Cut at its spaces, a header names the client third and the server fourth, in one family, and their
/// ports fifth and sixth, and the line ends with carriage return and line feed. A receiver that reads
/// the third word as an address gets what the client's address counts as, and the server's from the
/// fourth.
pub proof fn law_words_name_ends(h: ProxyHeader)
    ensures
        ({
            let n = header_text(h).len();
            let w = text::split(header_text(h).take(n - 2), ' ');
            let (s, d) = (h.src.ip().canonical(), h.dst.ip().canonical());
            &&& n > 2
            &&& header_text(h).skip(n - 2) == seq!['\r', '\n']
            &&& w.len() == 6
            &&& w[0] == "PROXY"@
            &&& s is V4 && d is V4 ==> {
                &&& w[1] == "TCP4"@
                &&& forall|x: u32| w[2] == #[trigger] addr::ipv4_text(x) <==> s == IpAddr::V4(x)
                &&& forall|x: u32| w[3] == #[trigger] addr::ipv4_text(x) <==> d == IpAddr::V4(x)
            }
            &&& s is V6 || d is V6 ==> {
                &&& w[1] == "TCP6"@
                &&& forall|x: u128|
                    w[2] == #[trigger] addr::ipv6_text(x) <==> s == IpAddr::V6(x).canonical()
                &&& forall|x: u128|
                    w[3] == #[trigger] addr::ipv6_text(x) <==> d == IpAddr::V6(x).canonical()
            }
            &&& text::worth(w[4], 10) == h.src.port()
            &&& text::worth(w[5], 10) == h.dst.port()
            &&& w[4] == text::decimal(h.src.port() as nat)
            &&& w[5] == text::decimal(h.dst.port() as nat)
        }),
{
    let n = header_text(h).len();
    let w = text::split(header_text(h).take(n - 2), ' ');
    let (s, d) = (h.src.ip().canonical(), h.dst.ip().canonical());
    law_header_read_back(h);
    law_one_family(h);
    text::law_numeral_read_back(h.src.port() as nat, 10);
    text::law_numeral_read_back(h.dst.port() as nat, 10);
    lemma_join6(header_words(h));
    assert(header_text(h).skip(n - 2) == seq!['\r', '\n']);
    if s is V4 && d is V4 {
        assert forall|x: u32| w[2] == #[trigger] addr::ipv4_text(x) <==> s == IpAddr::V4(x) by {
            addr::lemma_ipv4_text_names(x, s->V4_0);
        }
        assert forall|x: u32| w[3] == #[trigger] addr::ipv4_text(x) <==> d == IpAddr::V4(x) by {
            addr::lemma_ipv4_text_names(x, d->V4_0);
        }
    } else {
        assert forall|x: u128| w[2] == #[trigger] addr::ipv6_text(x) <==> s == IpAddr::V6(
            x,
        ).canonical() by {
            lemma_reads_as(h.src.ip(), x);
        }
        assert forall|x: u128| w[3] == #[trigger] addr::ipv6_text(x) <==> d == IpAddr::V6(
            x,
        ).canonical() by {
            lemma_reads_as(h.dst.ip(), x);
        }
    }
}

/// The IPv6 text of an address is read as what the address counts as.
proof fn lemma_reads_as(ip: IpAddr, x: u128)
    ensures
        addr::ipv6_text(ip.canonical().as_v6()) == addr::ipv6_text(x) <==> ip.canonical()
            == IpAddr::V6(x).canonical(),
{
    let v6 = ip.canonical().as_v6();
    if addr::ipv6_text(v6) == addr::ipv6_text(x) {
        addr_laws::law_ipv6_text_unambiguous(v6, x);
    }
    addr::law_canonical_once(ip);
    match ip.canonical() {
        IpAddr::V4(v4) => {
            addr::law_canonical(v4, x);
            addr::law_mapped(x, v4);
        },
        IpAddr::V6(y) => {
            addr::law_canonical(0, y);
            addr::law_mapped(x, 0);
        },
    }
}

/// A label begins with the peer's address and ends with its hardware address in brackets; an unknown
/// one reads like one that is called so.
pub proof fn law_label_names_peer(peer: SocketAddr, mac: Seq<char>)
    ensures
        ({
            let label = peer_label(peer, Some(mac));
            let n = peer.text().len() as int;
            &&& label.len() == n + 7 + mac.len() + 1
            &&& label.take(n) == peer.text()
            &&& label.subrange(n, n + 7) == " (mac: "@
            &&& label.subrange(n + 7, n + 7 + mac.len()) == mac
            &&& label.last() == ')'
        }),
        peer_label(peer, None) == peer_label(peer, Some("unknown"@)),
{
    reveal_strlit(" (mac: ");
    reveal_strlit(")");
    reveal_strlit("unknown");
    reveal_strlit(" (mac: unknown)");
    let label = peer_label(peer, Some(mac));
    let n = peer.text().len() as int;
    assert(label.take(n) == peer.text());
    assert(label.subrange(n, n + 7) == " (mac: "@);
    assert(label.subrange(n + 7, n + 7 + mac.len()) == mac);
    assert(peer_label(peer, None) == peer_label(peer, Some("unknown"@)));
}

}
