//! What the text of an address says.

use crate::addr;
use crate::addr::IpAddr;
use crate::text;
use vstd::prelude::*;

verus! {

/// A sum of three texts holds no character that none of them holds.
proof fn lemma_sum_without(a: Seq<char>, b: Seq<char>, c: Seq<char>, x: char)
    requires
        !a.contains(x),
        !b.contains(x),
        !c.contains(x),
    ensures
        !(a + b + c).contains(x),
{
    let all = a + b + c;
    assert forall|k: int| 0 <= k < all.len() implies all[k] != x by {
        if k < a.len() {
            assert(all[k] == a[k]);
        } else if k < a.len() + b.len() {
            assert(all[k] == b[k - a.len()]);
        } else {
            assert(all[k] == c[k - a.len() - b.len()]);
        }
    }
}

/// The text of an IPv4 address holds digits and dots only.
pub proof fn lemma_ipv4_text_without(ip: u32, x: char)
    requires
        text::is_no_digit(x),
        x != '.',
    ensures
        !addr::ipv4_text(ip).contains(x),
{
    text::lemma_numeral_without(ip as nat / 0x100_0000, 10, x);
    text::lemma_numeral_without(ip as nat / 0x1_0000 % 0x100, 10, x);
    text::lemma_numeral_without(ip as nat / 0x100 % 0x100, 10, x);
    text::lemma_numeral_without(ip as nat % 0x100, 10, x);
    text::lemma_join_without(
        seq![
            text::decimal(ip as nat / 0x100_0000),
            text::decimal(ip as nat / 0x1_0000 % 0x100),
            text::decimal(ip as nat / 0x100 % 0x100),
            text::decimal(ip as nat % 0x100),
        ],
        '.',
        x,
    );
}

/// The text of an IPv4 address holds a dot.
proof fn lemma_ipv4_text_has_dot(ip: u32)
    ensures
        addr::ipv4_text(ip).contains('.'),
{
    addr::lemma_ipv4_pieces(ip);
    if !addr::ipv4_text(ip).contains('.') {
        text::lemma_split_single(addr::ipv4_text(ip), '.');
        assert(text::split(addr::ipv4_text(ip), '.').len() == 1);
    }
}

/// Groups in hexadecimal hold digits and colons only.
proof fn lemma_groups_text_without(g: Seq<u16>, x: char)
    requires
        text::is_no_digit(x),
        x != ':',
    ensures
        !addr::groups_text(g).contains(x),
{
    let pieces = g.map_values(|x: u16| text::hexadecimal(x as nat));
    assert forall|i: int| 0 <= i < pieces.len() implies !#[trigger] pieces[i].contains(x) by {
        text::lemma_numeral_without(g[i] as nat, 16, x);
    }
    text::lemma_join_without(pieces, ':', x);
}

/// The text of an IPv6 address holds digits, colons and dots only, and dots only in the mapped form.
pub proof fn lemma_ipv6_text_without(ip: u128, x: char)
    requires
        text::is_no_digit(x),
        x != ':',
        x == '.' ==> addr::mapped_ipv4(ip) is None,
    ensures
        !addr::ipv6_text(ip).contains(x),
{
    let nothing = Seq::<char>::empty();
    match addr::mapped_ipv4(ip) {
        Some(v4) => {
            lemma_ipv4_text_without(v4, x);
            let head = seq![':', ':', 'f', 'f', 'f', 'f', ':'];
            lemma_sum_without(nothing, head, addr::ipv4_text(v4), x);
            assert(nothing + head + addr::ipv4_text(v4) == addr::ipv6_text(ip));
        },
        None => {
            let g = addr::groups(ip);
            let from = addr::longest_run(g, 8);
            let to = from + addr::zero_run(g, from);
            lemma_groups_text_without(g, x);
            lemma_groups_text_without(g.take(from), x);
            lemma_groups_text_without(g.skip(to), x);
            lemma_sum_without(
                addr::groups_text(g.take(from)),
                seq![':', ':'],
                addr::groups_text(g.skip(to)),
                x,
            );
        },
    }
}

/// An address without its last `n` groups.
spec fn above(ip: nat, n: nat) -> nat
    decreases n,
{
    if n == 0 {
        ip
    } else {
        above(ip / 0x1_0000, (n - 1) as nat)
    }
}

/// Two numbers with the same last groups and the same number before them are equal.
proof fn lemma_low_groups_unique(a: nat, b: nat, n: nat)
    requires
        addr::low_groups(a, n) == addr::low_groups(b, n),
        above(a, n) == above(b, n),
    ensures
        a == b,
    decreases n,
{
    if n > 0 {
        let (x, y) = (addr::low_groups(a, n), addr::low_groups(b, n));
        assert(x.drop_last() == addr::low_groups(a / 0x1_0000, (n - 1) as nat));
        assert(y.drop_last() == addr::low_groups(b / 0x1_0000, (n - 1) as nat));
        lemma_low_groups_unique(a / 0x1_0000, b / 0x1_0000, (n - 1) as nat);
        assert(x.last() == a % 0x1_0000);
        assert(y.last() == b % 0x1_0000);
        vstd::arithmetic::div_mod::lemma_fundamental_div_mod(a as int, 0x1_0000);
        vstd::arithmetic::div_mod::lemma_fundamental_div_mod(b as int, 0x1_0000);
    }
}

/// There are as many groups as were asked for.
proof fn lemma_low_groups_len(ip: nat, n: nat)
    ensures
        addr::low_groups(ip, n).len() == n,
    decreases n,
{
    if n > 0 {
        lemma_low_groups_len(ip / 0x1_0000, (n - 1) as nat);
    }
}

/// Eight groups are all of an IPv6 address.
proof fn lemma_nothing_above(ip: u128)
    ensures
        above(ip as nat, 8) == 0,
{
    reveal_with_fuel(above, 9);
}

/// No two IPv6 addresses have the same eight groups.
proof fn lemma_groups_unique(a: u128, b: u128)
    requires
        addr::groups(a) == addr::groups(b),
    ensures
        a == b,
{
    lemma_nothing_above(a);
    lemma_nothing_above(b);
    lemma_low_groups_unique(a as nat, b as nat, 8);
}

/// A run of zero groups ends within the groups, and holds zeros only.
proof fn lemma_zero_run(g: Seq<u16>, i: int)
    requires
        0 <= i <= g.len(),
    ensures
        i + addr::zero_run(g, i) <= g.len(),
        forall|k: int| i <= k < i + addr::zero_run(g, i) ==> #[trigger] g[k] == 0,
    decreases g.len() - i,
{
    if i < g.len() && g[i] == 0 {
        lemma_zero_run(g, i + 1);
    }
}

/// The pieces between the colons of groups: their hexadecimal texts, or one empty text for none.
spec fn group_pieces(g: Seq<u16>) -> Seq<Seq<char>> {
    if g.len() == 0 {
        seq![Seq::empty()]
    } else {
        g.map_values(|x: u16| text::hexadecimal(x as nat))
    }
}

/// Groups are cut at their colons into their pieces, which are empty only where there is no group.
proof fn lemma_group_pieces(g: Seq<u16>)
    ensures
        text::split(addr::groups_text(g), ':') == group_pieces(g),
        g.len() > 0 ==> group_pieces(g).len() == g.len(),
        g.len() > 0 ==> forall|i: int|
            0 <= i < g.len() ==> (#[trigger] group_pieces(g)[i]).len() > 0,
{
    let pieces = g.map_values(|x: u16| text::hexadecimal(x as nat));
    assert forall|i: int| 0 <= i < pieces.len() implies !#[trigger] pieces[i].contains(':')
        && pieces[i].len() > 0 by {
        text::lemma_numeral_without(g[i] as nat, 16, ':');
        text::lemma_numeral_nonempty(g[i] as nat, 16);
    }
    if g.len() > 0 {
        text::lemma_split_join(pieces, ':');
    }
}

/// No two rows of groups have the same pieces.
proof fn lemma_group_pieces_unique(g: Seq<u16>, h: Seq<u16>)
    requires
        group_pieces(g) == group_pieces(h),
    ensures
        g == h,
{
    lemma_group_pieces(g);
    lemma_group_pieces(h);
    if g.len() == 0 {
        assert(group_pieces(g)[0].len() == 0);
        assert(h.len() == 0);
        assert(g == h);
    } else {
        if h.len() == 0 {
            assert(group_pieces(h)[0].len() == 0);
        }
        assert(g.len() == h.len());
        assert forall|i: int| 0 <= i < g.len() implies g[i] == h[i] by {
            assert(group_pieces(g)[i] == text::hexadecimal(g[i] as nat));
            assert(group_pieces(h)[i] == text::hexadecimal(h[i] as nat));
            text::lemma_numeral_unique(g[i] as nat, h[i] as nat, 16);
        }
        assert(g == h);
    }
}

/// The pieces between the colons of groups with `::` between them.
spec fn short_pieces(head: Seq<u16>, tail: Seq<u16>) -> Seq<Seq<char>> {
    group_pieces(head).push(Seq::empty()) + group_pieces(tail)
}

/// Groups with `::` between them are cut at their colons into their pieces.
proof fn lemma_short_pieces(head: Seq<u16>, tail: Seq<u16>)
    ensures
        text::split(addr::groups_text(head) + seq![':', ':'] + addr::groups_text(tail), ':')
            == short_pieces(head, tail),
{
    let (a, b) = (addr::groups_text(head), addr::groups_text(tail));
    let nothing = Seq::<char>::empty();
    lemma_group_pieces(head);
    lemma_group_pieces(tail);
    text::lemma_split_concat(nothing, ':', b);
    text::lemma_split_concat(a, ':', nothing.push(':') + b);
    assert(a.push(':') + (nothing.push(':') + b) == a + seq![':', ':'] + b);
    assert(group_pieces(head) + (seq![nothing] + group_pieces(tail)) == short_pieces(head, tail));
}

/// Where `::` stands, the groups before it and behind it can be read in one way only.
proof fn lemma_short_pieces_unique(
    head_a: Seq<u16>,
    tail_a: Seq<u16>,
    head_b: Seq<u16>,
    tail_b: Seq<u16>,
)
    requires
        short_pieces(head_a, tail_a) == short_pieces(head_b, tail_b),
    ensures
        head_a == head_b,
        tail_a == tail_b,
{
    let p = short_pieces(head_a, tail_a);
    lemma_group_pieces(head_a);
    lemma_group_pieces(head_b);
    let (x, y) = (group_pieces(head_a), group_pieces(head_b));
    assert(p[0] == x[0]);
    assert(short_pieces(head_b, tail_b)[0] == y[0]);
    assert(head_a.len() == 0 <==> p[0].len() == 0);
    assert(head_b.len() == 0 <==> p[0].len() == 0);
    assert(x.len() == y.len()) by {
        if head_a.len() > 0 {
            assert(p[x.len() as int].len() == 0);
            assert(short_pieces(head_b, tail_b)[y.len() as int].len() == 0);
            if x.len() < y.len() {
                assert(short_pieces(head_b, tail_b)[x.len() as int] == y[x.len() as int]);
            }
            if y.len() < x.len() {
                assert(p[y.len() as int] == x[y.len() as int]);
            }
        }
    }
    assert(p.take(x.len() as int) == x);
    assert(short_pieces(head_b, tail_b).take(y.len() as int) == y);
    lemma_group_pieces_unique(head_a, head_b);
    assert(p.skip(x.len() as int + 1) == group_pieces(tail_a));
    assert(short_pieces(head_b, tail_b).skip(y.len() as int + 1) == group_pieces(tail_b));
    lemma_group_pieces_unique(tail_a, tail_b);
}

/// The groups before the run that `::` stands for.
spec fn head_of(ip: u128) -> Seq<u16> {
    addr::groups(ip).take(addr::longest_run(addr::groups(ip), 8))
}

/// The groups behind the run that `::` stands for.
spec fn tail_of(ip: u128) -> Seq<u16> {
    let g = addr::groups(ip);
    g.skip(addr::longest_run(g, 8) + addr::zero_run(g, addr::longest_run(g, 8)))
}

/// Whether the text of an address has `::` for zero groups.
spec fn is_shortened(ip: u128) -> bool {
    let g = addr::groups(ip);
    addr::zero_run(g, addr::longest_run(g, 8)) > 1
}

/// The groups of an address are those before and behind its longest run of zeros, and the zeros.
proof fn lemma_around_run(ip: u128)
    ensures
        addr::groups(ip).len() == 8,
        head_of(ip).len() + tail_of(ip).len() <= 8,
        addr::groups(ip) == head_of(ip) + Seq::new(
            (8 - head_of(ip).len() - tail_of(ip).len()) as nat,
            |i: int| 0u16,
        ) + tail_of(ip),
{
    let g = addr::groups(ip);
    lemma_low_groups_len(ip as nat, 8);
    addr::lemma_longest_run(g, 8, 0);
    lemma_zero_run(g, addr::longest_run(g, 8));
    let zeros = Seq::new((8 - head_of(ip).len() - tail_of(ip).len()) as nat, |i: int| 0u16);
    assert(g == head_of(ip) + zeros + tail_of(ip));
}

/// The text of an address that is not mapped, cut at its colons.
proof fn lemma_ipv6_pieces(ip: u128)
    requires
        addr::mapped_ipv4(ip) is None,
    ensures
        is_shortened(ip) ==> text::split(addr::ipv6_text(ip), ':') == short_pieces(
            head_of(ip),
            tail_of(ip),
        ),
        !is_shortened(ip) ==> text::split(addr::ipv6_text(ip), ':') == group_pieces(
            addr::groups(ip),
        ),
{
    lemma_short_pieces(head_of(ip), tail_of(ip));
    lemma_group_pieces(addr::groups(ip));
}

/// Pieces with an empty one among them are not those of eight groups written out.
proof fn lemma_shortened_differs(head: Seq<u16>, tail: Seq<u16>, g: Seq<u16>)
    requires
        g.len() > 0,
    ensures
        short_pieces(head, tail) != group_pieces(g),
{
    lemma_group_pieces(g);
    lemma_group_pieces(head);
    let k = group_pieces(head).len() as int;
    assert(short_pieces(head, tail)[k].len() == 0);
    if short_pieces(head, tail) == group_pieces(g) {
        assert(group_pieces(g)[k].len() > 0);
    }
}

/// Two addresses with the same text are both mapped or both not.
proof fn lemma_same_form(a: u128, b: u128)
    requires
        addr::ipv6_text(a) == addr::ipv6_text(b),
        addr::mapped_ipv4(a) is Some,
    ensures
        addr::mapped_ipv4(b) is Some,
{
    if addr::mapped_ipv4(b) is None {
        let v4 = addr::mapped_ipv4(a)->0;
        lemma_ipv6_text_without(b, '.');
        lemma_ipv4_text_has_dot(v4);
        let tail = addr::ipv4_text(v4);
        let k = choose|k: int| 0 <= k < tail.len() && tail[k] == '.';
        assert(addr::ipv6_text(a)[7 + k] == '.');
    }
}

/// No two IPv6 addresses have the same text.
pub proof fn law_ipv6_text_unambiguous(a: u128, b: u128)
    requires
        addr::ipv6_text(a) == addr::ipv6_text(b),
    ensures
        a == b,
{
    if addr::mapped_ipv4(a) is Some || addr::mapped_ipv4(b) is Some {
        if addr::mapped_ipv4(a) is Some {
            lemma_same_form(a, b);
        } else {
            lemma_same_form(b, a);
        }
        let (v, w) = (addr::mapped_ipv4(a)->0, addr::mapped_ipv4(b)->0);
        assert(addr::ipv6_text(a).skip(7) == addr::ipv4_text(v));
        assert(addr::ipv6_text(b).skip(7) == addr::ipv4_text(w));
        addr::lemma_ipv4_text_names(v, w);
        vstd::arithmetic::div_mod::lemma_fundamental_div_mod(a as int, 0x1_0000_0000);
        vstd::arithmetic::div_mod::lemma_fundamental_div_mod(b as int, 0x1_0000_0000);
    } else {
        lemma_ipv6_pieces(a);
        lemma_ipv6_pieces(b);
        lemma_around_run(a);
        lemma_around_run(b);
        lemma_shortened_differs(head_of(a), tail_of(a), addr::groups(b));
        lemma_shortened_differs(head_of(b), tail_of(b), addr::groups(a));
        if is_shortened(a) {
            lemma_short_pieces_unique(head_of(a), tail_of(a), head_of(b), tail_of(b));
        } else {
            lemma_group_pieces_unique(addr::groups(a), addr::groups(b));
        }
        lemma_groups_unique(a, b);
    }
}

/// No two addresses that count as different have the same IPv6 form.
pub proof fn law_canonical_by_ipv6_form(a: IpAddr, b: IpAddr)
    requires
        a.canonical().as_v6() == b.canonical().as_v6(),
    ensures
        a.canonical() == b.canonical(),
{
    if let IpAddr::V4(v) = a.canonical() {
        addr::law_mapped_is_canonical(v);
    }
    if let IpAddr::V4(v) = b.canonical() {
        addr::law_mapped_is_canonical(v);
    }
}

/// The text of an IPv4 address is four numbers below 256 with dots between them, the first worth most.
pub proof fn law_ipv4_text_read_back(ip: u32)
    ensures
        ({
            let p = text::split(addr::ipv4_text(ip), '.');
            &&& p.len() == 4
            &&& forall|i: int|
                0 <= i < 4 ==> {
                    &&& 0 <= #[trigger] text::worth(p[i], 10) < 256
                    &&& p[i] == text::decimal(text::worth(p[i], 10) as nat)
                }
            &&& text::worth(p[0], 10) * 0x100_0000 + text::worth(p[1], 10) * 0x1_0000 + text::worth(
                p[2],
                10,
            ) * 0x100 + text::worth(p[3], 10) == ip
        }),
{
    addr::lemma_ipv4_pieces(ip);
    let p = text::split(addr::ipv4_text(ip), '.');
    let n = ip as int;
    let (a, b, c, d) = (n / 0x100_0000, n / 0x1_0000 % 0x100, n / 0x100 % 0x100, n % 0x100);
    text::law_numeral_read_back(a as nat, 10);
    text::law_numeral_read_back(b as nat, 10);
    text::law_numeral_read_back(c as nat, 10);
    text::law_numeral_read_back(d as nat, 10);
    vstd::arithmetic::div_mod::lemma_div_denominator(n, 0x100, 0x100);
    vstd::arithmetic::div_mod::lemma_div_denominator(n, 0x1_0000, 0x100);
    vstd::arithmetic::div_mod::lemma_fundamental_div_mod(n, 0x100);
    vstd::arithmetic::div_mod::lemma_fundamental_div_mod(n / 0x100, 0x100);
    vstd::arithmetic::div_mod::lemma_fundamental_div_mod(n / 0x1_0000, 0x100);
    assert(p[0] == text::decimal(a as nat));
    assert(p[1] == text::decimal(b as nat));
    assert(p[2] == text::decimal(c as nat));
    assert(p[3] == text::decimal(d as nat));
    assert forall|i: int| 0 <= i < 4 implies {
        &&& 0 <= #[trigger] text::worth(p[i], 10) < 256
        &&& p[i] == text::decimal(text::worth(p[i], 10) as nat)
    } by {
        assert(i == 0 || i == 1 || i == 2 || i == 3);
    }
}

/// A text names an IPv4 address exactly if it is that address's text.
pub proof fn law_ipv4_named(s: Seq<char>, ip: u32)
    ensures
        addr::ipv4_named(s) == Some(ip) <==> s == addr::ipv4_text(ip),
        addr::ipv4_named(s) is None <==> forall|x: u32| addr::ipv4_text(x) != s,
{
    addr::lemma_ipv4_text_names(ip, ip);
    if addr::ipv4_named(s) == Some(ip) {
        let x = choose|x: u32| addr::ipv4_text(x) == s;
        assert(addr::ipv4_text(x) == s);
    }
}

/// What groups of sixteen bits are worth together, the first most.
pub open spec fn groups_worth(g: Seq<u16>) -> int
    decreases g.len(),
{
    if g.len() == 0 {
        0
    } else {
        groups_worth(g.drop_last()) * 0x1_0000 + g.last()
    }
}

/// Groups are worth the number that they were taken from, if nothing stands above them.
proof fn lemma_groups_worth(ip: nat, n: nat)
    requires
        above(ip, n) == 0,
    ensures
        groups_worth(addr::low_groups(ip, n)) == ip,
    decreases n,
{
    if n > 0 {
        let g = addr::low_groups(ip, n);
        assert(g.drop_last() == addr::low_groups(ip / 0x1_0000, (n - 1) as nat));
        lemma_groups_worth(ip / 0x1_0000, (n - 1) as nat);
        assert(g.last() == ip % 0x1_0000);
        vstd::arithmetic::div_mod::lemma_fundamental_div_mod(ip as int, 0x1_0000);
    }
}

/// An IPv6 address has eight groups, which are worth the address.
pub proof fn law_groups_read_back(ip: u128)
    ensures
        addr::groups(ip).len() == 8,
        groups_worth(addr::groups(ip)) == ip,
{
    lemma_low_groups_len(ip as nat, 8);
    lemma_nothing_above(ip);
    lemma_groups_worth(ip as nat, 8);
}

/// Cut at its colons, the text of groups is the hexadecimal number of each, in order.
pub proof fn law_groups_text(g: Seq<u16>)
    ensures
        g.len() == 0 ==> addr::groups_text(g) == Seq::<char>::empty(),
        g.len() > 0 ==> {
            let p = text::split(addr::groups_text(g), ':');
            &&& p.len() == g.len()
            &&& forall|i: int|
                0 <= i < g.len() ==> #[trigger] p[i] == text::numeral(g[i] as nat, 16)
                    && text::worth(p[i], 16) == g[i]
        },
{
    lemma_group_pieces(g);
    if g.len() > 0 {
        let p = text::split(addr::groups_text(g), ':');
        assert forall|i: int| 0 <= i < g.len() implies #[trigger] p[i] == text::numeral(
            g[i] as nat,
            16,
        ) && text::worth(p[i], 16) == g[i] by {
            text::law_numeral_read_back(g[i] as nat, 16);
        }
    } else {
        assert(addr::groups_text(g) == Seq::<char>::empty());
    }
}

/// Whether the groups from `i` up to, not including, `j` are zero.
pub open spec fn all_zero(g: Seq<u16>, i: int, j: int) -> bool {
    forall|k: int| i <= k < j ==> #[trigger] g[k] == 0
}

/// A stretch of zeros is within the run that begins with it.
proof fn lemma_run_reaches(g: Seq<u16>, i: int, j: int)
    requires
        0 <= i <= j <= g.len(),
        all_zero(g, i, j),
    ensures
        addr::zero_run(g, i) >= j - i,
    decreases j - i,
{
    if i < j {
        assert(g[i] == 0);
        lemma_run_reaches(g, i + 1, j);
    }
}

/// The text of an IPv6 address writes its eight groups, with `::` for the leftmost of the longest
/// stretches of two or more zeros; a mapped address ends in the text of its IPv4 address.
pub proof fn law_ipv6_text_form(ip: u128)
    ensures
        0xffff_0000_0000 <= ip <= 0xffff_ffff_ffff ==> addr::ipv6_text(ip) == seq![
            ':',
            ':',
            'f',
            'f',
            'f',
            'f',
            ':',
        ] + addr::ipv4_text((ip - 0xffff_0000_0000) as u32),
        ip < 0xffff_0000_0000 || ip > 0xffff_ffff_ffff ==> exists|from: int, to: int|
            {
                &&& 0 <= from <= to <= 8
                &&& #[trigger] all_zero(addr::groups(ip), from, to)
                &&& forall|i: int, j: int|
                    0 <= i <= j <= 8 && #[trigger] all_zero(addr::groups(ip), i, j) ==> j - i <= to
                        - from && (j - i == to - from && i < j ==> from <= i)
                &&& to - from >= 2 ==> addr::ipv6_text(ip) == addr::groups_text(
                    addr::groups(ip).take(from),
                ) + seq![':', ':'] + addr::groups_text(addr::groups(ip).skip(to))
                &&& to - from < 2 ==> addr::ipv6_text(ip) == addr::groups_text(addr::groups(ip))
            },
{
    let g = addr::groups(ip);
    if 0xffff_0000_0000 <= ip <= 0xffff_ffff_ffff {
        addr::law_mapped(ip, (ip - 0xffff_0000_0000) as u32);
    } else {
        addr::law_mapped(ip, 0);
        law_groups_read_back(ip);
        let from = addr::longest_run(g, 8);
        let to = from + addr::zero_run(g, from);
        addr::lemma_longest_run(g, 8, 0);
        lemma_zero_run(g, from);
        assert(all_zero(g, from, to));
        assert forall|i: int, j: int| 0 <= i <= j <= 8 && #[trigger] all_zero(g, i, j) implies j - i
            <= to - from && (j - i == to - from && i < j ==> from <= i) by {
            if i < j {
                lemma_run_reaches(g, i, j);
                addr::lemma_longest_run(g, 8, i);
            }
        }
    }
}

}
