//! Hardware addresses from the kernel's table of neighbours.

use crate::addr;
use crate::addr::IpAddr;
use crate::addr_laws;
use crate::text;
use vstd::prelude::*;
use vstd::utf8;

verus! {

/// How many seconds a hardware address is kept.
pub const ARP_CACHE_TTL_SECS: u64 = 10;

/// The words of a line: its longest stretches without white space.
pub open spec fn words(line: Seq<char>) -> Seq<Seq<char>>
    decreases line.len(),
{
    if line.len() == 0 {
        Seq::empty()
    } else {
        let before = words(line.drop_last());
        if text::is_space(line.last()) {
            before
        } else if line.len() >= 2 && !text::is_space(line[line.len() - 2]) {
            before.drop_last().push(before.last().push(line.last()))
        } else {
            before.push(seq![line.last()])
        }
    }
}

/// The hardware address that a line gives for an IPv4 address: the fourth word, in lower case, of a
/// line whose first word is the address, unless it is all zeros.
pub open spec fn line_mac(line: Seq<char>, needle: u32) -> Option<Seq<char>> {
    let w = words(line);
    if w.len() >= 4 && addr::ipv4_named(w[0]) == Some(needle) && w[3] != "00:00:00:00:00:00"@ {
        Some(text::lowercase(w[3]))
    } else {
        None
    }
}

/// The hardware address from the first line that gives one.
pub open spec fn lines_mac(lines: Seq<Seq<char>>, needle: u32) -> Option<Seq<char>>
    decreases lines.len(),
{
    if lines.len() == 0 {
        None
    } else if line_mac(lines.first(), needle) is Some {
        line_mac(lines.first(), needle)
    } else {
        lines_mac(lines.drop_first(), needle)
    }
}

/// The hardware address that the table gives; its first line is a heading.
pub open spec fn table_mac(contents: Seq<char>, needle: u32) -> Option<Seq<char>> {
    lines_mac(text::split(contents, '\n').skip(1), needle)
}

/// Where each word of a line begins and stops.
fn word_bounds(chars: &Vec<char>, from: usize, to: usize) -> (r: Vec<(usize, usize)>)
    requires
        from <= to <= chars@.len(),
    ensures
        r@.len() == words(chars@.subrange(from as int, to as int)).len(),
        forall|k: int|
            0 <= k < r@.len() ==> {
                &&& from <= (#[trigger] r@[k]).0 <= r@[k].1 <= to
                &&& chars@.subrange(r@[k].0 as int, r@[k].1 as int) == words(
                    chars@.subrange(from as int, to as int),
                )[k]
            },
{
    let mut r: Vec<(usize, usize)> = Vec::new();
    let mut start: usize = from;
    let mut i: usize = from;
    while i < to
        invariant
            from <= start <= i <= to <= chars@.len(),
            start == i || !text::is_space(chars@[i - 1]),
            i > from && !text::is_space(chars@[i - 1]) ==> start < i,
            words(chars@.subrange(from as int, i as int)).len() == r@.len() + (if start < i {
                1int
            } else {
                0int
            }),
            start < i ==> words(chars@.subrange(from as int, i as int)).last() == chars@.subrange(
                start as int,
                i as int,
            ),
            forall|k: int|
                0 <= k < r@.len() ==> {
                    &&& from <= (#[trigger] r@[k]).0 <= r@[k].1 <= to
                    &&& chars@.subrange(r@[k].0 as int, r@[k].1 as int) == words(
                        chars@.subrange(from as int, i as int),
                    )[k]
                },
        decreases to - i,
    {
        let ghost done = chars@.subrange(from as int, i as int);
        let ghost more = chars@.subrange(from as int, i + 1);
        let ghost held = r@;
        assert(more.drop_last() == done);
        assert(more.last() == chars@[i as int]);
        assert(more.len() >= 2 ==> more[more.len() - 2] == chars@[i - 1]);
        if text::is_space_char(chars[i]) {
            if start < i {
                r.push((start, i));
            }
            start = i + 1;
        } else {
            if start < i {
                assert(chars@.subrange(start as int, i + 1) == chars@.subrange(
                    start as int,
                    i as int,
                ).push(chars@[i as int]));
            } else {
                assert(chars@.subrange(start as int, i + 1) == seq![chars@[i as int]]);
            }
        }
        i += 1;
        assert forall|k: int| 0 <= k < r@.len() implies {
            &&& from <= (#[trigger] r@[k]).0 <= r@[k].1 <= to
            &&& chars@.subrange(r@[k].0 as int, r@[k].1 as int) == words(more)[k]
        } by {
            if k < held.len() {
                assert(r@[k] == held[k]);
            }
        }
    }
    if start < i {
        r.push((start, i));
    }
    r
}

/// The hardware address that one line gives.
fn find_in_line(chars: &Vec<char>, from: usize, to: usize, needle: u32) -> (r: Option<String>)
    requires
        from <= to <= chars@.len(),
    ensures
        text::optional_view(r) == line_mac(chars@.subrange(from as int, to as int), needle),
{
    let bounds = word_bounds(chars, from, to);
    let ghost w = words(chars@.subrange(from as int, to as int));
    if bounds.len() < 4 {
        return None;
    }
    let (first, fourth) = (bounds[0], bounds[3]);
    let ip = text::string_of(chars.as_slice(), first.0, first.1);
    let mac = text::string_of(chars.as_slice(), fourth.0, fourth.1);
    assert(ip@ == w[0] && mac@ == w[3]);
    match addr::parse_ipv4(&text::chars_of(ip.as_str())) {
        Some(ip) if ip == needle => {},
        _ => {
            return None;
        },
    }
    if mac == "00:00:00:00:00:00".to_owned() {
        return None;
    }
    let low = text::to_lowercase(&text::chars_of(mac.as_str()));
    assert(low@.subrange(0, low@.len() as int) == low@);
    Some(text::string_of(&low, 0, low.len()))
}

/// The hardware address that the table gives for an IPv4 address.
pub fn find_mac(contents: &str, needle: u32) -> (r: Option<String>)
    ensures
        text::optional_view(r) == table_mac(contents@, needle),
{
    let chars = text::chars_of(contents);
    let lines = text::split_bounds(&chars, '\n');
    let ghost all = text::split(contents@, '\n');
    proof {
        text::lemma_split_pieces(contents@, '\n');
    }
    let mut i: usize = 1;
    while i < lines.len()
        invariant
            1 <= i <= lines@.len(),
            chars@ == contents@,
            all == text::split(contents@, '\n'),
            lines@.len() == all.len(),
            forall|k: int|
                0 <= k < lines@.len() ==> {
                    &&& (#[trigger] lines@[k]).0 <= lines@[k].1 <= chars@.len()
                    &&& chars@.subrange(lines@[k].0 as int, lines@[k].1 as int) == all[k]
                },
            lines_mac(all.skip(i as int), needle) == table_mac(contents@, needle),
        decreases lines@.len() - i,
    {
        let (from, to) = lines[i];
        assert(all.skip(i as int).first() == all[i as int]);
        assert(all.skip(i as int).drop_first() == all.skip(i + 1));
        if let Some(mac) = find_in_line(&chars, from, to, needle) {
            return Some(mac);
        }
        i += 1;
    }
    None
}

/// The hardware address that the bytes of the table give; a table that is not UTF-8 gives none.
pub fn lookup_mac_from_arp(contents: Vec<u8>, needle: u32) -> (r: Option<String>)
    ensures
        text::optional_view(r) == if utf8::valid_utf8(contents@) {
            table_mac(utf8::decode_utf8(contents@), needle)
        } else {
            None
        },
{
    match String::from_utf8(contents) {
        Ok(contents) => find_mac(contents.as_str(), needle),
        Err(_) => None,
    }
}

/// The IPv4 address to look a peer up by, if it has one.
pub fn arp_needle(peer: IpAddr) -> (r: Option<u32>)
    ensures
        r == match peer.canonical() {
            IpAddr::V4(ip) => Some(ip),
            IpAddr::V6(_) => None,
        },
{
    match peer {
        IpAddr::V4(ip) => Some(ip),
        IpAddr::V6(ip) => addr::to_ipv4_mapped(ip),
    }
}

/// A line that does not end in white space has a last word.
proof fn lemma_last_word(line: Seq<char>)
    requires
        line.len() > 0,
        !text::is_space(line.last()),
    ensures
        words(line).len() > 0,
    decreases line.len(),
{
    if line.len() >= 2 && !text::is_space(line[line.len() - 2]) {
        lemma_last_word(line.drop_last());
    }
}

/// White space parts words: the words of a line are those before it and those behind it, and a stretch
/// without white space is one word.
pub proof fn law_words_parted(a: Seq<char>, c: char, b: Seq<char>)
    ensures
        text::is_space(c) ==> words(a.push(c) + b) == words(a) + words(b),
        words(Seq::empty()) == Seq::<Seq<char>>::empty(),
        b.len() > 0 && (forall|i: int| 0 <= i < b.len() ==> !text::is_space(#[trigger] b[i]))
            ==> words(b) == seq![b],
    decreases b.len(),
{
    let s = a.push(c) + b;
    if b.len() == 0 {
        assert(s == a.push(c));
        assert(s.drop_last() == a);
        if text::is_space(c) {
            assert(words(s) == words(a) + words(b));
        }
    } else {
        let init = b.drop_last();
        law_words_parted(a, c, init);
        assert(s.drop_last() == a.push(c) + init);
        assert(s.last() == b.last());
        if text::is_space(c) {
            if !text::is_space(b.last()) {
                if b.len() >= 2 && !text::is_space(b[b.len() - 2]) {
                    assert(init.last() == b[b.len() - 2]);
                    lemma_last_word(init);
                    assert(s[s.len() - 2] == b[b.len() - 2]);
                    let (x, y) = (words(a), words(init));
                    assert((x + y).drop_last() == x + y.drop_last());
                    assert((x + y).last() == y.last());
                } else if b.len() == 1 {
                    assert(s[s.len() - 2] == c);
                    assert(init == Seq::<char>::empty());
                } else {
                    assert(s[s.len() - 2] == b[b.len() - 2]);
                }
            }
            assert(words(s) == words(a) + words(b));
        }
        if forall|i: int| 0 <= i < b.len() ==> !text::is_space(#[trigger] b[i]) {
            assert(!text::is_space(b[b.len() - 1]));
            if b.len() == 1 {
                assert(init == Seq::<char>::empty());
                assert(b == seq![b.last()]);
                assert(words(b) == seq![b]);
            } else {
                assert forall|i: int| 0 <= i < init.len() implies !text::is_space(
                    #[trigger] init[i],
                ) by {
                    assert(!text::is_space(b[i]));
                }
                assert(!text::is_space(b[b.len() - 2]));
                assert(words(init) == seq![init]);
                assert(init.push(b.last()) == b);
                assert(words(b) == seq![b]);
            }
        }
    }
}

/// A line gives its fourth word, in lower case, to the address that its first word spells, unless that
/// word is all zeros.
pub proof fn law_line_read(line: Seq<char>, needle: u32)
    ensures
        ({
            let w = words(line);
            &&& w.len() < 4 ==> line_mac(line, needle) is None
            &&& w.len() >= 4 && w[0] != addr::ipv4_text(needle) ==> line_mac(line, needle) is None
            &&& w.len() >= 4 && w[3] == "00:00:00:00:00:00"@ ==> line_mac(line, needle) is None
            &&& w.len() >= 4 && w[0] == addr::ipv4_text(needle) && w[3] != "00:00:00:00:00:00"@
                ==> line_mac(line, needle) == Some(text::lowercase(w[3]))
        }),
{
    let w = words(line);
    if w.len() >= 4 {
        addr_laws::law_ipv4_named(w[0], needle);
    }
}

/// The first line that gives a hardware address decides.
pub proof fn law_first_line_decides(a: Seq<Seq<char>>, b: Seq<Seq<char>>, needle: u32)
    ensures
        lines_mac(Seq::empty(), needle) is None,
        a.len() == 1 ==> lines_mac(a, needle) == line_mac(a[0], needle),
        lines_mac(a, needle) is Some ==> lines_mac(a + b, needle) == lines_mac(a, needle),
        lines_mac(a, needle) is None ==> lines_mac(a + b, needle) == lines_mac(b, needle),
    decreases a.len(),
{
    if a.len() > 0 {
        law_first_line_decides(a.drop_first(), b, needle);
        assert((a + b).drop_first() == a.drop_first() + b);
        assert((a + b).first() == a.first());
        if a.len() == 1 {
            assert(a.drop_first() == Seq::<Seq<char>>::empty());
        }
    } else {
        assert(a + b == b);
    }
}

/// All lines but the heading are looked at.
pub proof fn law_heading_skipped(heading: Seq<char>, body: Seq<char>, needle: u32)
    requires
        !heading.contains('\n'),
    ensures
        table_mac(heading.push('\n') + body, needle) == lines_mac(text::split(body, '\n'), needle),
        table_mac(heading, needle) is None,
{
    text::lemma_split_single(heading, '\n');
    text::lemma_split_concat(heading, '\n', body);
    let lines = text::split(body, '\n');
    assert((seq![heading] + lines).skip(1) == lines);
    assert(seq![heading].skip(1) == Seq::<Seq<char>>::empty());
}

}
