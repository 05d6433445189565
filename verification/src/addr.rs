//! IP and socket addresses as integers, and their text forms.

use crate::text;
use vstd::prelude::*;

verus! {

/// An IP address, held as the integer that its bytes spell in network order.
#[derive(Clone, Copy, Debug, PartialEq, Eq, Structural)]
pub enum IpAddr {
    V4(u32),
    V6(u128),
}

/// An IP address with a port, and for IPv6 the flow information and scope.
#[allow(inconsistent_fields)]
#[derive(Clone, Copy, Debug, PartialEq, Eq, Structural)]
pub enum SocketAddr {
    V4 { ip: u32, port: u16 },
    V6 { ip: u128, port: u16, flowinfo: u32, scope_id: u32 },
}

/// The IPv4 address inside an IPv4-mapped IPv6 address (`::ffff:0:0/96`).
pub open spec fn mapped_ipv4(ip: u128) -> Option<u32> {
    if ip / 0x1_0000_0000 == 0xffff {
        Some((ip % 0x1_0000_0000) as u32)
    } else {
        None
    }
}

/// The IPv4-mapped IPv6 address of an IPv4 address.
pub open spec fn ipv6_mapped(ip: u32) -> u128 {
    (0xffff_0000_0000 + ip) as u128
}

/// The dotted decimal text of an IPv4 address.
pub open spec fn ipv4_text(ip: u32) -> Seq<char> {
    text::join(
        seq![
            text::decimal(ip as nat / 0x100_0000),
            text::decimal(ip as nat / 0x1_0000 % 0x100),
            text::decimal(ip as nat / 0x100 % 0x100),
            text::decimal(ip as nat % 0x100),
        ],
        '.',
    )
}

/// The address that a text names in dotted decimal.
pub open spec fn ipv4_named(s: Seq<char>) -> Option<u32> {
    if exists|ip: u32| ipv4_text(ip) == s {
        Some(choose|ip: u32| ipv4_text(ip) == s)
    } else {
        None
    }
}

/// The last `n` groups of sixteen bits of an IPv6 address, most significant first.
pub open spec fn low_groups(ip: nat, n: nat) -> Seq<u16>
    decreases n,
{
    if n == 0 {
        Seq::empty()
    } else {
        low_groups(ip / 0x1_0000, (n - 1) as nat).push((ip % 0x1_0000) as u16)
    }
}

/// The eight groups of an IPv6 address.
pub open spec fn groups(ip: u128) -> Seq<u16> {
    low_groups(ip as nat, 8)
}

/// How many groups in a row, from `i` on, are zero.
pub open spec fn zero_run(g: Seq<u16>, i: int) -> nat
    decreases g.len() - i,
{
    if 0 <= i < g.len() && g[i] == 0 {
        1 + zero_run(g, i + 1)
    } else {
        0
    }
}

/// Where, among the first `n` groups, the longest run of zero groups begins; the leftmost of equals.
pub open spec fn longest_run(g: Seq<u16>, n: int) -> int
    decreases n,
{
    if n <= 1 {
        0
    } else {
        let best = longest_run(g, n - 1);
        if zero_run(g, n - 1) > zero_run(g, best) {
            n - 1
        } else {
            best
        }
    }
}

/// Groups in hexadecimal with colons between them.
pub open spec fn groups_text(g: Seq<u16>) -> Seq<char> {
    text::join(g.map_values(|x: u16| text::hexadecimal(x as nat)), ':')
}

/// The text of an IPv6 address: an IPv4-mapped one ends in dotted decimal; otherwise the leftmost
/// longest run of two or more zero groups is written `::`.
pub open spec fn ipv6_text(ip: u128) -> Seq<char> {
    match mapped_ipv4(ip) {
        Some(v4) => seq![':', ':', 'f', 'f', 'f', 'f', ':'] + ipv4_text(v4),
        None => {
            let g = groups(ip);
            let from = longest_run(g, 8);
            let to = from + zero_run(g, from);
            if to - from > 1 {
                groups_text(g.take(from)) + seq![':', ':'] + groups_text(g.skip(to))
            } else {
                groups_text(g)
            }
        },
    }
}

impl IpAddr {
    /// An IPv4-mapped IPv6 address as IPv4; every other address as it is.
    pub open spec fn canonical(self) -> IpAddr {
        match self {
            IpAddr::V6(ip) => match mapped_ipv4(ip) {
                Some(v4) => IpAddr::V4(v4),
                None => self,
            },
            IpAddr::V4(_) => self,
        }
    }

    /// The text of the address.
    pub open spec fn text(self) -> Seq<char> {
        match self {
            IpAddr::V4(ip) => ipv4_text(ip),
            IpAddr::V6(ip) => ipv6_text(ip),
        }
    }

    /// The address as IPv6, an IPv4 address in its mapped form.
    pub open spec fn as_v6(self) -> u128 {
        match self {
            IpAddr::V4(ip) => ipv6_mapped(ip),
            IpAddr::V6(ip) => ip,
        }
    }

    /// Turns an IPv4-mapped IPv6 address into IPv4.
    pub fn to_canonical(self) -> (r: IpAddr)
        ensures
            r == self.canonical(),
    {
        match self {
            IpAddr::V6(ip) => match to_ipv4_mapped(ip) {
                Some(v4) => IpAddr::V4(v4),
                None => self,
            },
            IpAddr::V4(_) => self,
        }
    }

    /// The address as IPv6.
    pub fn to_v6(self) -> (r: u128)
        ensures
            r == self.as_v6(),
    {
        match self {
            IpAddr::V4(ip) => 0xffff_0000_0000u128 + ip as u128,
            IpAddr::V6(ip) => ip,
        }
    }
}

impl SocketAddr {
    /// The IP address.
    pub open spec fn spec_ip(self) -> IpAddr {
        match self {
            SocketAddr::V4 { ip, .. } => IpAddr::V4(ip),
            SocketAddr::V6 { ip, .. } => IpAddr::V6(ip),
        }
    }

    /// The port.
    pub open spec fn spec_port(self) -> u16 {
        match self {
            SocketAddr::V4 { port, .. } => port,
            SocketAddr::V6 { port, .. } => port,
        }
    }

    /// The address of the given IP address and port, without flow information or scope.
    pub open spec fn of(ip: IpAddr, port: u16) -> SocketAddr {
        match ip {
            IpAddr::V4(ip) => SocketAddr::V4 { ip, port },
            IpAddr::V6(ip) => SocketAddr::V6 { ip, port, flowinfo: 0, scope_id: 0 },
        }
    }

    /// The text of the address: an IPv6 address stands in brackets, with its scope if it has one.
    pub open spec fn text(self) -> Seq<char> {
        match self {
            SocketAddr::V4 { ip, port } => ipv4_text(ip) + seq![':'] + text::decimal(port as nat),
            SocketAddr::V6 { ip, port, flowinfo, scope_id } => {
                let scope = if scope_id == 0 {
                    Seq::empty()
                } else {
                    seq!['%'] + text::decimal(scope_id as nat)
                };
                seq!['['] + ipv6_text(ip) + scope + seq![']', ':'] + text::decimal(port as nat)
            },
        }
    }

    /// Joins an IP address and a port.
    pub fn new(ip: IpAddr, port: u16) -> (r: SocketAddr)
        ensures
            r == SocketAddr::of(ip, port),
    {
        match ip {
            IpAddr::V4(ip) => SocketAddr::V4 { ip, port },
            IpAddr::V6(ip) => SocketAddr::V6 { ip, port, flowinfo: 0, scope_id: 0 },
        }
    }

    /// The IP address.
    #[verifier::when_used_as_spec(spec_ip)]
    pub fn ip(self) -> (r: IpAddr)
        ensures
            r == self.spec_ip(),
    {
        match self {
            SocketAddr::V4 { ip, .. } => IpAddr::V4(ip),
            SocketAddr::V6 { ip, .. } => IpAddr::V6(ip),
        }
    }

    /// The port.
    #[verifier::when_used_as_spec(spec_port)]
    pub fn port(self) -> (r: u16)
        ensures
            r == self.spec_port(),
    {
        match self {
            SocketAddr::V4 { port, .. } => port,
            SocketAddr::V6 { port, .. } => port,
        }
    }

    /// Appends the text of the address.
    pub fn push_text(self, out: &mut String)
        ensures
            final(out)@ == old(out)@ + self.text(),
    {
        match self {
            SocketAddr::V4 { ip, port } => {
                push_ipv4(out, ip);
                out.push(':');
                text::push_decimal(out, port as u32);
            },
            SocketAddr::V6 { ip, port, flowinfo: _, scope_id } => {
                out.push('[');
                push_ipv6(out, ip);
                if scope_id != 0 {
                    out.push('%');
                    text::push_decimal(out, scope_id);
                }
                out.push(']');
                out.push(':');
                text::push_decimal(out, port as u32);
            },
        }
        assert(out@ == old(out)@ + self.text());
    }
}

/// The IPv4 address inside an IPv4-mapped IPv6 address.
pub fn to_ipv4_mapped(ip: u128) -> (r: Option<u32>)
    ensures
        r == mapped_ipv4(ip),
{
    if ip / 0x1_0000_0000 == 0xffff {
        Some((ip % 0x1_0000_0000) as u32)
    } else {
        None
    }
}

/// Appends the dotted decimal text of an IPv4 address.
pub fn push_ipv4(out: &mut String, ip: u32)
    ensures
        final(out)@ == old(out)@ + ipv4_text(ip),
{
    text::push_decimal(out, ip / 0x100_0000);
    out.push('.');
    text::push_decimal(out, ip / 0x1_0000 % 0x100);
    out.push('.');
    text::push_decimal(out, ip / 0x100 % 0x100);
    out.push('.');
    text::push_decimal(out, ip % 0x100);
    proof {
        lemma_join4(
            text::decimal(ip as nat / 0x100_0000),
            text::decimal(ip as nat / 0x1_0000 % 0x100),
            text::decimal(ip as nat / 0x100 % 0x100),
            text::decimal(ip as nat % 0x100),
        );
        assert(out@ == old(out)@ + ipv4_text(ip));
    }
}

/// Four pieces joined by dots, written out.
proof fn lemma_join4(a: Seq<char>, b: Seq<char>, c: Seq<char>, d: Seq<char>)
    ensures
        text::join(seq![a, b, c, d], '.') == a.push('.') + b.push('.') + c.push('.') + d,
{
    let p4 = seq![a, b, c, d];
    let p3 = p4.drop_last();
    let p2 = p3.drop_last();
    let p1 = p2.drop_last();
    assert(p1 == seq![a]);
    assert(text::join(p1, '.') == a);
    assert(text::join(p2, '.') == a.push('.') + b);
    assert(text::join(p3, '.') == (a.push('.') + b).push('.') + c);
    assert(text::join(p4, '.') == ((a.push('.') + b).push('.') + c).push('.') + d);
    assert(text::join(p4, '.') == a.push('.') + b.push('.') + c.push('.') + d);
}

/// The last `n` groups of an IPv6 address.
fn split_groups(ip: u128, n: usize) -> (g: Vec<u16>)
    requires
        n <= 8,
    ensures
        g@ == low_groups(ip as nat, n as nat),
        g@.len() == n,
    decreases n,
{
    if n == 0 {
        Vec::new()
    } else {
        let mut g = split_groups(ip / 0x1_0000, n - 1);
        g.push((ip % 0x1_0000) as u16);
        g
    }
}

/// The length of the run of zero groups from `i` on.
fn count_zero_run(g: &Vec<u16>, i: usize) -> (r: usize)
    requires
        i <= g@.len(),
    ensures
        r == zero_run(g@, i as int),
        i + r <= g@.len(),
    decreases g@.len() - i,
{
    if i < g.len() && g[i] == 0 {
        1 + count_zero_run(g, i + 1)
    } else {
        0
    }
}

/// Appends the groups from `from` up to, not including, `to`.
fn push_groups(out: &mut String, g: &Vec<u16>, from: usize, to: usize)
    requires
        from <= to <= g@.len(),
    ensures
        final(out)@ == old(out)@ + groups_text(g@.subrange(from as int, to as int)),
{
    let mut i: usize = from;
    while i < to
        invariant
            from <= i <= to <= g@.len(),
            out@ == old(out)@ + groups_text(g@.subrange(from as int, i as int)),
        decreases to - i,
    {
        if i > from {
            out.push(':');
        }
        text::push_hexadecimal(out, g[i] as u32);
        proof {
            let hex = |x: u16| text::hexadecimal(x as nat);
            let done = g@.subrange(from as int, i as int).map_values(hex);
            let more = g@.subrange(from as int, i + 1).map_values(hex);
            assert(more.drop_last() == done);
            assert(more.last() == text::hexadecimal(g@[i as int] as nat));
            assert(out@ == old(out)@ + groups_text(g@.subrange(from as int, i + 1)));
        }
        i += 1;
    }
}

/// Appends the text of an IPv6 address.
pub fn push_ipv6(out: &mut String, ip: u128)
    ensures
        final(out)@ == old(out)@ + ipv6_text(ip),
{
    if let Some(v4) = to_ipv4_mapped(ip) {
        out.push(':');
        out.push(':');
        out.push('f');
        out.push('f');
        out.push('f');
        out.push('f');
        out.push(':');
        push_ipv4(out, v4);
        assert(out@ == old(out)@ + ipv6_text(ip));
    } else {
        let g = split_groups(ip, 8);
        let mut best: usize = 0;
        let mut best_len: usize = count_zero_run(&g, 0);
        let mut n: usize = 1;
        while n < 8
            invariant
                1 <= n <= 8,
                g@.len() == 8,
                best < 8,
                best == longest_run(g@, n as int),
                best_len == zero_run(g@, best as int),
                best + best_len <= 8,
            decreases 8 - n,
        {
            let len = count_zero_run(&g, n);
            if len > best_len {
                best = n;
                best_len = len;
            }
            n += 1;
        }
        if best_len > 1 {
            push_groups(out, &g, 0, best);
            out.push(':');
            out.push(':');
            push_groups(out, &g, best + best_len, 8);
            proof {
                assert(g@.take(best as int) == g@.subrange(0, best as int));
                assert(g@.skip(best + best_len) == g@.subrange(best + best_len, 8));
                assert(out@ == old(out)@ + ipv6_text(ip));
            }
        } else {
            push_groups(out, &g, 0, 8);
            assert(g@.subrange(0, 8) == g@);
        }
    }
}

/// The run that `::` stands for is as long as any run of zero groups, and longer than every run that
/// begins before it.
pub proof fn lemma_longest_run(g: Seq<u16>, n: int, i: int)
    requires
        0 <= i < n,
    ensures
        0 <= longest_run(g, n) < n,
        zero_run(g, longest_run(g, n)) >= zero_run(g, i),
        i < longest_run(g, n) ==> zero_run(g, longest_run(g, n)) > zero_run(g, i),
    decreases n,
{
    if n > 1 {
        lemma_longest_run(g, n - 1, 0);
        if i < n - 1 {
            lemma_longest_run(g, n - 1, i);
        }
    }
}

/// The decimal digits of a number below one thousand, written out.
proof fn lemma_decimal_digits(n: nat)
    requires
        n < 1000,
    ensures
        n < 10 ==> text::decimal(n) == seq![text::digit(n)],
        10 <= n < 100 ==> text::decimal(n) == seq![text::digit(n / 10), text::digit(n % 10)],
        100 <= n ==> text::decimal(n) == seq![
            text::digit(n / 100),
            text::digit(n / 10 % 10),
            text::digit(n % 10),
        ],
{
    reveal_with_fuel(text::numeral, 4);
    if 10 <= n < 100 {
        assert(text::decimal(n) == seq![text::digit(n / 10)].push(text::digit(n % 10)));
    }
    if 100 <= n {
        assert(n / 10 / 10 == n / 100);
        assert(text::decimal(n) == seq![text::digit(n / 100)].push(text::digit(n / 10 % 10)).push(
            text::digit(n % 10),
        ));
    }
}

/// The characters of the decimal text of a number below one thousand, as numbers.
proof fn lemma_octet_shape(n: nat)
    requires
        n < 1000,
    ensures
        n < 10 ==> text::decimal(n).len() == 1 && text::decimal(n)[0] as int == 48 + n,
        10 <= n < 100 ==> text::decimal(n).len() == 2 && text::decimal(n)[0] as int == 48 + n / 10
            && text::decimal(n)[1] as int == 48 + n % 10,
        100 <= n ==> text::decimal(n).len() == 3 && text::decimal(n)[0] as int == 48 + n / 100
            && text::decimal(n)[1] as int == 48 + n / 10 % 10 && text::decimal(n)[2] as int == 48
            + n % 10,
{
    lemma_decimal_digits(n);
}

/// A text of another shape is not the decimal text of a number up to 255.
proof fn lemma_not_octet(s: Seq<char>)
    requires
        ({
            ||| s.len() == 0
            ||| s.len() > 3
            ||| exists|k: int| 0 <= k < s.len() && !('0' <= #[trigger] s[k] <= '9')
            ||| s.len() > 1 && s[0] == '0'
            ||| s.len() == 3 && 100 * (s[0] as int - 48) + 10 * (s[1] as int - 48) + (s[2] as int
                - 48) > 255
        }),
    ensures
        forall|v: nat| v < 256 ==> s != #[trigger] text::decimal(v),
{
    assert forall|v: nat| v < 256 implies s != #[trigger] text::decimal(v) by {
        lemma_octet_shape(v);
        if s == text::decimal(v) {
            if exists|k: int| 0 <= k < s.len() && !('0' <= #[trigger] s[k] <= '9') {
                let k = choose|k: int| 0 <= k < s.len() && !('0' <= #[trigger] s[k] <= '9');
                assert(k == 0 || k == 1 || k == 2);
                let c: char = s[k];
                assert(48 <= c as int <= 57);
            }
            if s.len() == 3 {
                assert(100 * (v / 100) + 10 * (v / 10 % 10) + v % 10 == v);
            }
            if s.len() > 1 && s[0] == '0' {
                assert(s[0] as int == 48);
            }
        }
    }
}

/// The value that a text names in decimal, if that is at most 255.
fn parse_octet(chars: &[char], from: usize, to: usize) -> (r: Option<u32>)
    requires
        from <= to <= chars@.len(),
    ensures
        match r {
            Some(v) => v < 256 && chars@.subrange(from as int, to as int) == text::decimal(
                v as nat,
            ),
            None => forall|v: nat|
                v < 256 ==> chars@.subrange(from as int, to as int) != #[trigger] text::decimal(v),
        },
{
    let len: usize = to - from;
    let ghost s = chars@.subrange(from as int, to as int);
    if len == 0 || len > 3 {
        proof {
            lemma_not_octet(s);
        }
        return None;
    }
    let mut value: u32 = 0;
    let mut i: usize = from;
    while i < to
        invariant
            from <= i <= to <= chars@.len(),
            1 <= to - from <= 3,
            s == chars@.subrange(from as int, to as int),
            forall|k: int| 0 <= k < i - from ==> '0' <= #[trigger] s[k] <= '9',
            i - from == 0 ==> value == 0,
            i - from == 1 ==> value == s[0] as int - 48,
            i - from == 2 ==> value == 10 * (s[0] as int - 48) + (s[1] as int - 48),
            i - from == 3 ==> value == 100 * (s[0] as int - 48) + 10 * (s[1] as int - 48) + (
            s[2] as int - 48),
        decreases to - i,
    {
        let c = chars[i];
        assert(s[i - from] == c);
        if c < '0' || c > '9' {
            proof {
                lemma_not_octet(s);
            }
            return None;
        }
        value = value * 10 + (c as u32 - 48);
        i += 1;
    }
    assert(s[0] == chars@[from as int]);
    if value > 255 || (len > 1 && chars[from] == '0') {
        proof {
            lemma_not_octet(s);
        }
        return None;
    }
    proof {
        lemma_octet_shape(value as nat);
        let t = text::decimal(value as nat);
        assert forall|k: int| 0 <= k < s.len() implies s[k] == t[k] by {
            assert(k == 0 || k == 1 || k == 2);
            let (x, y): (char, char) = (s[k], t[k]);
            assert(x as int == y as int);
            assert(x == y);
        }
        assert(s == t);
    }
    Some(value)
}

/// The pieces of a dotted decimal text are the four decimal numbers.
pub proof fn lemma_ipv4_pieces(ip: u32)
    ensures
        text::split(ipv4_text(ip), '.') == seq![
            text::decimal(ip as nat / 0x100_0000),
            text::decimal(ip as nat / 0x1_0000 % 0x100),
            text::decimal(ip as nat / 0x100 % 0x100),
            text::decimal(ip as nat % 0x100),
        ],
{
    let pieces = seq![
        text::decimal(ip as nat / 0x100_0000),
        text::decimal(ip as nat / 0x1_0000 % 0x100),
        text::decimal(ip as nat / 0x100 % 0x100),
        text::decimal(ip as nat % 0x100),
    ];
    lemma_decimal_digits(ip as nat / 0x100_0000);
    lemma_decimal_digits(ip as nat / 0x1_0000 % 0x100);
    lemma_decimal_digits(ip as nat / 0x100 % 0x100);
    lemma_decimal_digits(ip as nat % 0x100);
    text::lemma_split_join(pieces, '.');
}

/// Two numbers below 256 with the same decimal text are equal.
proof fn lemma_octet_unique(a: nat, b: nat)
    requires
        a < 256,
        b < 256,
        text::decimal(a) == text::decimal(b),
    ensures
        a == b,
{
    lemma_octet_shape(a);
    lemma_octet_shape(b);
    let s = text::decimal(a);
    assert(s.len() == 1 || s.len() == 2 || s.len() == 3);
}

/// No two IPv4 addresses have the same text, and the text of each names it.
pub proof fn lemma_ipv4_text_names(a: u32, b: u32)
    ensures
        ipv4_text(a) == ipv4_text(b) ==> a == b,
        ipv4_named(ipv4_text(a)) == Some(a),
{
    let c = choose|ip: u32| ipv4_text(ip) == ipv4_text(a);
    assert(ipv4_text(c) == ipv4_text(a));
    lemma_ipv4_text_unique(a, c);
    if ipv4_text(a) == ipv4_text(b) {
        lemma_ipv4_text_unique(a, b);
    }
}

/// No two IPv4 addresses have the same text.
proof fn lemma_ipv4_text_unique(a: u32, b: u32)
    requires
        ipv4_text(a) == ipv4_text(b),
    ensures
        a == b,
{
    lemma_ipv4_pieces(a);
    lemma_ipv4_pieces(b);
    let pieces = text::split(ipv4_text(a), '.');
    let (a0, a1, a2, a3) = (
        a as nat / 0x100_0000,
        a as nat / 0x1_0000 % 0x100,
        a as nat / 0x100 % 0x100,
        a as nat % 0x100,
    );
    let (b0, b1, b2, b3) = (
        b as nat / 0x100_0000,
        b as nat / 0x1_0000 % 0x100,
        b as nat / 0x100 % 0x100,
        b as nat % 0x100,
    );
    assert(pieces[0] == text::decimal(a0) && pieces[0] == text::decimal(b0));
    assert(pieces[1] == text::decimal(a1) && pieces[1] == text::decimal(b1));
    assert(pieces[2] == text::decimal(a2) && pieces[2] == text::decimal(b2));
    assert(pieces[3] == text::decimal(a3) && pieces[3] == text::decimal(b3));
    lemma_octet_unique(a0, b0);
    lemma_octet_unique(a1, b1);
    lemma_octet_unique(a2, b2);
    lemma_octet_unique(a3, b3);
    lemma_octets_unique(a, b);
}

/// Two IPv4 addresses with the same four bytes are equal.
proof fn lemma_octets_unique(a: u32, b: u32)
    requires
        a as nat / 0x100_0000 == b as nat / 0x100_0000,
        a as nat / 0x1_0000 % 0x100 == b as nat / 0x1_0000 % 0x100,
        a as nat / 0x100 % 0x100 == b as nat / 0x100 % 0x100,
        a as nat % 0x100 == b as nat % 0x100,
    ensures
        a == b,
{
    let (a, b) = (a as int, b as int);
    vstd::arithmetic::div_mod::lemma_div_denominator(a, 0x100, 0x100);
    vstd::arithmetic::div_mod::lemma_div_denominator(a, 0x1_0000, 0x100);
    vstd::arithmetic::div_mod::lemma_div_denominator(b, 0x100, 0x100);
    vstd::arithmetic::div_mod::lemma_div_denominator(b, 0x1_0000, 0x100);
    lemma_same_number(a / 0x1_0000, b / 0x1_0000);
    lemma_same_number(a / 0x100, b / 0x100);
    lemma_same_number(a, b);
}

/// Two numbers with the same last byte and the same number before it are equal.
proof fn lemma_same_number(a: int, b: int)
    requires
        a / 0x100 == b / 0x100,
        a % 0x100 == b % 0x100,
    ensures
        a == b,
{
}

/// The four bytes of an IPv4 address are the numbers that it was put together from.
proof fn lemma_octets(a: u32, b: u32, c: u32, d: u32)
    requires
        a < 256,
        b < 256,
        c < 256,
        d < 256,
    ensures
        ({
            let ip = (a * 0x100_0000 + b * 0x1_0000 + c * 0x100 + d) as nat;
            &&& ip / 0x100_0000 == a
            &&& ip / 0x1_0000 % 0x100 == b
            &&& ip / 0x100 % 0x100 == c
            &&& ip % 0x100 == d
        }),
{
    let ip = a * 0x100_0000 + b * 0x1_0000 + c * 0x100 + d;
    let high = a * 0x1_0000 + b * 0x100 + c;
    lemma_last_byte(ip, high, d as int);
    lemma_last_byte(high, a * 0x100 + b, c as int);
    lemma_last_byte(a * 0x100 + b, a as int, b as int);
    vstd::arithmetic::div_mod::lemma_div_denominator(ip, 0x100, 0x100);
    vstd::arithmetic::div_mod::lemma_div_denominator(ip, 0x1_0000, 0x100);
}

/// The last byte of a number, and what stands before it.
proof fn lemma_last_byte(n: int, high: int, low: int)
    requires
        n == high * 0x100 + low,
        0 <= low < 0x100,
    ensures
        n / 0x100 == high,
        n % 0x100 == low,
{
}

/// Reads an IPv4 address in dotted decimal: four numbers up to 255 without leading zeros.
pub fn parse_ipv4(chars: &[char]) -> (r: Option<u32>)
    ensures
        r == ipv4_named(chars@),
{
    let bounds = text::split_bounds(chars, '.');
    let ghost pieces = text::split(chars@, '.');
    proof {
        assert forall|ip: u32| #[trigger] ipv4_text(ip) == chars@ implies {
            &&& pieces.len() == 4
            &&& pieces[0] == text::decimal(ip as nat / 0x100_0000)
            &&& pieces[1] == text::decimal(ip as nat / 0x1_0000 % 0x100)
            &&& pieces[2] == text::decimal(ip as nat / 0x100 % 0x100)
            &&& pieces[3] == text::decimal(ip as nat % 0x100)
        } by {
            lemma_ipv4_pieces(ip);
        }
    }
    if bounds.len() != 4 {
        return None;
    }
    let (a, b, c, d) = (
        parse_octet(chars, bounds[0].0, bounds[0].1),
        parse_octet(chars, bounds[1].0, bounds[1].1),
        parse_octet(chars, bounds[2].0, bounds[2].1),
        parse_octet(chars, bounds[3].0, bounds[3].1),
    );
    match (a, b, c, d) {
        (Some(a), Some(b), Some(c), Some(d)) => {
            let ip: u32 = a * 0x100_0000 + b * 0x1_0000 + c * 0x100 + d;
            proof {
                lemma_octets(a, b, c, d);
                assert(pieces == seq![
                    text::decimal(a as nat),
                    text::decimal(b as nat),
                    text::decimal(c as nat),
                    text::decimal(d as nat),
                ]);
                text::lemma_join_split(chars@, '.');
                assert(ipv4_text(ip) == chars@);
                lemma_ipv4_text_names(ip, ip);
            }
            Some(ip)
        },
        _ => None,
    }
}

/// The mapped form of an IPv4 address counts as that address.
pub proof fn law_mapped_is_canonical(ip: u32)
    ensures
        mapped_ipv4(ipv6_mapped(ip)) == Some(ip),
        IpAddr::V6(ipv6_mapped(ip)).canonical() == IpAddr::V4(ip),
{
}

/// Canonical addresses stay as they are.
pub proof fn law_canonical_once(ip: IpAddr)
    ensures
        ip.canonical().canonical() == ip.canonical(),
{
}

/// The mapped addresses are those that begin with eighty zero bits and sixteen ones.
pub proof fn law_mapped(ip: u128, v4: u32)
    ensures
        mapped_ipv4(ip) == Some(v4) <==> ip == 0xffff_0000_0000 + v4,
        ipv6_mapped(v4) == 0xffff_0000_0000 + v4,
        mapped_ipv4(ip) is None <==> ip < 0xffff_0000_0000 || ip > 0xffff_ffff_ffff,
{
}

/// An address counts as IPv4 if it is one or is the mapped form of one, and as itself otherwise.
pub proof fn law_canonical(v4: u32, v6: u128)
    ensures
        IpAddr::V4(v4).canonical() == IpAddr::V4(v4),
        IpAddr::V6((0xffff_0000_0000 + v4) as u128).canonical() == IpAddr::V4(v4),
        v6 < 0xffff_0000_0000 || v6 > 0xffff_ffff_ffff ==> IpAddr::V6(v6).canonical() == IpAddr::V6(
            v6,
        ),
        IpAddr::V4(v4).as_v6() == 0xffff_0000_0000 + v4,
        IpAddr::V6(v6).as_v6() == v6,
{
    law_mapped((0xffff_0000_0000 + v4) as u128, v4);
    law_mapped(v6, v4);
}

/// A socket address has the parts that it was made of.
pub proof fn law_socket_parts(ip: IpAddr, port: u16, addr: SocketAddr)
    ensures
        SocketAddr::of(ip, port).ip() == ip,
        SocketAddr::of(ip, port).port() == port,
        SocketAddr::of(ip, port) matches SocketAddr::V6 { flowinfo, scope_id, .. } ==> flowinfo == 0
            && scope_id == 0,
        addr matches SocketAddr::V4 { ip: v4, port: p } ==> addr.ip() == IpAddr::V4(v4)
            && addr.port() == p,
        addr matches SocketAddr::V6 { ip: v6, port: p, flowinfo, scope_id } ==> addr.ip()
            == IpAddr::V6(v6) && addr.port() == p,
{
}

/// The text of a socket address ends in a colon and the port; before that stands the address, an IPv6
/// address in brackets and with its scope unless that is zero.
pub proof fn law_socket_text(addr: SocketAddr)
    ensures
        ({
            let port = text::decimal(addr.port() as nat);
            let n = addr.text().len() - port.len();
            &&& n > 0
            &&& addr.text().skip(n) == port
            &&& addr.text()[n - 1] == ':'
            &&& addr matches SocketAddr::V4 { ip, .. } ==> addr.text().take(n - 1) == ipv4_text(ip)
            &&& addr matches SocketAddr::V6 { ip, scope_id, .. } ==> {
                let inner = addr.text().subrange(1, n - 2);
                &&& n > 2
                &&& addr.text()[0] == '['
                &&& addr.text()[n - 2] == ']'
                &&& scope_id == 0 ==> inner == ipv6_text(ip)
                &&& scope_id != 0 ==> inner == ipv6_text(ip).push('%') + text::decimal(
                    scope_id as nat,
                )
            }
        }),
{
    let port = text::decimal(addr.port() as nat);
    let n = addr.text().len() - port.len();
    assert(addr.text().skip(n) == port);
    match addr {
        SocketAddr::V4 { ip, .. } => {
            assert(addr.text().take(n - 1) == ipv4_text(ip));
        },
        SocketAddr::V6 { ip, scope_id, .. } => {
            let inner = addr.text().subrange(1, n - 2);
            if scope_id == 0 {
                assert(inner == ipv6_text(ip));
            } else {
                assert(inner == ipv6_text(ip).push('%') + text::decimal(scope_id as nat));
            }
        },
    }
}

}
