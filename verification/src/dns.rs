//! DNS queries and what is taken from the replies.

use crate::addr::{IpAddr, SocketAddr};
use crate::outside;
use crate::text;
use std::collections::HashSet;
use vstd::prelude::*;
use vstd::string::StringExecFns;
use vstd::utf8;

verus! {

/// The port of a resolver that names none.
pub const DNS_DEFAULT_PORT: u16 = 53;

/// The room for a reply.
pub const MAX_DNS_MESSAGE_SIZE: usize = 4096;

/// How many seconds the addresses of a hostname are kept.
pub const DNS_CACHE_TTL_SECS: u64 = 180;

/// How many hostnames have their addresses kept.
pub const DNS_CACHE_CAPACITY: u64 = 16384;

/// How many seconds a reply is waited for.
pub const DNS_QUERY_TIMEOUT_SECS: u64 = 5;

/// After how many seconds without a reply a query is sent again.
pub const DNS_RETRANSMIT_SECS: u64 = 1;

/// The kinds of address records.
#[derive(Clone, Copy, Debug, PartialEq, Eq, Structural)]
pub enum RecordType {
    A,
    Aaaa,
}

/// The data of an answer.
#[derive(Clone, Copy, Debug, PartialEq, Eq, Structural)]
pub enum AnswerData {
    A(u32),
    Aaaa(u128),
    Other,
}

/// What a reply says, as far as it matters here.
pub struct DnsPacket {
    pub id: u16,
    pub response_code: u8,
    pub answers: Vec<AnswerData>,
}

/// Why no addresses came of a query.
#[derive(Clone, Copy, Debug, PartialEq, Eq, Structural)]
pub enum DnsError {
    InvalidHostname,
    EmptyLabel,
    LongLabel,
    Unparsable,
    WrongTransaction,
    Refused(u8),
    WrongSource(SocketAddr),
    NoResolverAddress,
}

/// The name of a response code.
pub open spec fn code_name(code: u8) -> Seq<char> {
    match code {
        0 => "NoError"@,
        1 => "FormatError"@,
        2 => "ServerFailure"@,
        3 => "NameError"@,
        4 => "NotImplemented"@,
        5 => "Refused"@,
        _ => "Reserved("@ + text::decimal(code as nat) + ")"@,
    }
}

impl DnsError {
    /// The refusal in words.
    pub open spec fn text(self) -> Seq<char> {
        match self {
            DnsError::InvalidHostname => "hostname is not a valid DNS name"@,
            DnsError::EmptyLabel => "hostname contains an empty DNS label"@,
            DnsError::LongLabel => "hostname label must be shorter than 63 characters"@,
            DnsError::Unparsable => "failed to parse DNS response"@,
            DnsError::WrongTransaction => "DNS response transaction ID mismatch"@,
            DnsError::Refused(code) => "resolver returned DNS error "@ + code_name(code),
            DnsError::WrongSource(from) => "received DNS response from unexpected address "@
                + from.text(),
            DnsError::NoResolverAddress => "resolver host does not resolve to any addresses"@,
        }
    }

    /// Puts the refusal in words.
    pub fn message(&self) -> (r: String)
        ensures
            r@ == self.text(),
    {
        match *self {
            DnsError::InvalidHostname => String::from_str("hostname is not a valid DNS name"),
            DnsError::EmptyLabel => String::from_str("hostname contains an empty DNS label"),
            DnsError::LongLabel => String::from_str(
                "hostname label must be shorter than 63 characters",
            ),
            DnsError::Unparsable => String::from_str("failed to parse DNS response"),
            DnsError::WrongTransaction => String::from_str("DNS response transaction ID mismatch"),
            DnsError::Refused(code) => {
                let mut out = String::from_str("resolver returned DNS error ");
                match code {
                    0 => out.append("NoError"),
                    1 => out.append("FormatError"),
                    2 => out.append("ServerFailure"),
                    3 => out.append("NameError"),
                    4 => out.append("NotImplemented"),
                    5 => out.append("Refused"),
                    _ => {
                        out.append("Reserved(");
                        text::push_decimal(&mut out, code as u32);
                        out.append(")");
                    },
                }
                assert(out@ == self.text());
                out
            },
            DnsError::WrongSource(from) => {
                let mut out = String::from_str("received DNS response from unexpected address ");
                from.push_text(&mut out);
                out
            },
            DnsError::NoResolverAddress => String::from_str(
                "resolver host does not resolve to any addresses",
            ),
        }
    }
}

/// The labels of a hostname: the bytes between its dots.
pub open spec fn labels(hostname: Seq<char>) -> Seq<Seq<u8>> {
    text::split(utf8::encode_utf8(hostname), 46u8)
}

/// Why a label is refused, if it is.
pub open spec fn label_error(label: Seq<u8>) -> Option<DnsError> {
    if label.len() == 0 {
        Some(DnsError::EmptyLabel)
    } else if label.len() >= 63 {
        Some(DnsError::LongLabel)
    } else {
        None
    }
}

/// Why the first label that is refused is refused, if one is.
pub open spec fn labels_error(labels: Seq<Seq<u8>>) -> Option<DnsError>
    decreases labels.len(),
{
    if labels.len() == 0 {
        None
    } else if labels_error(labels.drop_last()) is Some {
        labels_error(labels.drop_last())
    } else {
        label_error(labels.last())
    }
}

/// Why a hostname is refused, if it is: it has 1 to 255 bytes, and each label 1 to 62.
pub open spec fn hostname_error(hostname: Seq<char>) -> Option<DnsError> {
    let len = utf8::encode_utf8(hostname).len();
    if len == 0 || len > 255 {
        Some(DnsError::InvalidHostname)
    } else {
        labels_error(labels(hostname))
    }
}

impl RecordType {
    /// The number of the record type.
    pub open spec fn code(self) -> u8 {
        match self {
            RecordType::A => 1,
            RecordType::Aaaa => 28,
        }
    }
}

/// Labels as a message holds them: one byte of length before each.
pub open spec fn labels_wire(labels: Seq<Seq<u8>>) -> Seq<u8>
    decreases labels.len(),
{
    if labels.len() == 0 {
        Seq::empty()
    } else {
        labels_wire(labels.drop_last()).push(labels.last().len() as u8) + labels.last()
    }
}

/// A query with one question, in the Internet class.
pub open spec fn query_bytes(
    id: u16,
    recursion: bool,
    labels: Seq<Seq<u8>>,
    ty: RecordType,
) -> Seq<u8> {
    seq![
        (id / 256) as u8,
        (id % 256) as u8,
        if recursion {
            1u8
        } else {
            0u8
        },
        0,
        0,
        1,
        0,
        0,
        0,
        0,
        0,
        0,
    ] + labels_wire(labels) + seq![0u8, 0, ty.code(), 0, 1]
}

/// The addresses of the wanted kind among answers, in order.
pub open spec fn answer_addrs(answers: Seq<AnswerData>, ty: RecordType) -> Seq<IpAddr>
    decreases answers.len(),
{
    if answers.len() == 0 {
        Seq::empty()
    } else {
        let before = answer_addrs(answers.drop_last(), ty);
        match (ty, answers.last()) {
            (RecordType::A, AnswerData::A(ip)) => before.push(IpAddr::V4(ip)),
            (RecordType::Aaaa, AnswerData::Aaaa(ip)) => before.push(IpAddr::V6(ip)),
            _ => before,
        }
    }
}

/// What a reply that was read comes to.
pub open spec fn packet_outcome(
    id: u16,
    response_code: u8,
    answers: Seq<AnswerData>,
    ty: RecordType,
    query_id: u16,
) -> Result<Seq<IpAddr>, DnsError> {
    if id != query_id {
        Err(DnsError::WrongTransaction)
    } else if response_code != 0 {
        Err(DnsError::Refused(response_code))
    } else {
        Ok(answer_addrs(answers, ty))
    }
}

/// Hands out a transaction number and moves on to the next one, after 65535 to 0.
pub fn next_query_id(counter: &mut u16) -> (id: u16)
    ensures
        id == *old(counter),
        *final(counter) == (*old(counter) + 1) % 0x1_0000,
{
    let id: u16 = *counter;
    *counter = counter.wrapping_add(1);
    id
}

/// Refuses a hostname that cannot be asked for.
pub fn validate_dns_hostname(hostname: &str) -> (r: Result<(), DnsError>)
    ensures
        match r {
            Ok(_) => hostname_error(hostname@) is None,
            Err(e) => hostname_error(hostname@) == Some(e),
        },
{
    let bytes = hostname.as_bytes();
    if bytes.len() == 0 || bytes.len() > 255 {
        return Err(DnsError::InvalidHostname);
    }
    let mut from: usize = 0;
    let mut i: usize = 0;
    while i < bytes.len()
        invariant
            from <= i <= bytes@.len(),
            bytes@ == utf8::encode_utf8(hostname@),
            0 < bytes@.len() <= 255,
            text::split(bytes@.take(i as int), 46u8).len() > 0,
            text::split(bytes@.take(i as int), 46u8).last() == bytes@.subrange(
                from as int,
                i as int,
            ),
            labels_error(text::split(bytes@.take(i as int), 46u8).drop_last()) is None,
        decreases bytes@.len() - i,
    {
        assert(bytes@.take(i + 1).drop_last() == bytes@.take(i as int));
        let ghost before = text::split(bytes@.take(i as int), 46u8);
        if bytes[i] == 46u8 {
            assert(before.push(Seq::empty()).drop_last() == before);
            if i == from {
                proof {
                    lemma_early_label_error(bytes@, i + 1);
                }
                return Err(DnsError::EmptyLabel);
            }
            if i - from >= 63 {
                proof {
                    lemma_early_label_error(bytes@, i + 1);
                }
                return Err(DnsError::LongLabel);
            }
            from = i + 1;
        } else {
            assert(bytes@.subrange(from as int, i + 1) == before.last().push(bytes@[i as int]));
            assert(before.drop_last().push(before.last().push(bytes@[i as int])).drop_last()
                == before.drop_last());
        }
        i += 1;
    }
    assert(bytes@.take(i as int) == bytes@);
    if i == from {
        return Err(DnsError::EmptyLabel);
    }
    if i - from >= 63 {
        return Err(DnsError::LongLabel);
    }
    Ok(())
}

/// A label that is refused before the last dot of a text's beginning decides for the whole text.
proof fn lemma_early_label_error(bytes: Seq<u8>, n: int)
    requires
        0 <= n <= bytes.len(),
        labels_error(text::split(bytes.take(n), 46u8).drop_last()) is Some,
    ensures
        labels_error(text::split(bytes, 46u8)) == labels_error(
            text::split(bytes.take(n), 46u8).drop_last(),
        ),
    decreases bytes.len() - n,
{
    let now = text::split(bytes.take(n), 46u8);
    text::lemma_split_pieces(bytes.take(n), 46u8);
    if n < bytes.len() {
        assert(bytes.take(n + 1).drop_last() == bytes.take(n));
        let then = text::split(bytes.take(n + 1), 46u8);
        if bytes[n] == 46u8 {
            assert(then.drop_last() == now);
        } else {
            assert(then.drop_last() == now.drop_last());
        }
        lemma_early_label_error(bytes, n + 1);
    } else {
        assert(bytes.take(n) == bytes);
    }
}

/// Without a refusal, every label has 1 to 62 bytes.
pub proof fn lemma_labels_fit(labels: Seq<Seq<u8>>)
    requires
        labels_error(labels) is None,
    ensures
        forall|i: int| 0 <= i < labels.len() ==> 0 < (#[trigger] labels[i]).len() < 63,
    decreases labels.len(),
{
    if labels.len() > 0 {
        lemma_labels_fit(labels.drop_last());
        assert forall|i: int| 0 <= i < labels.len() implies 0 < (#[trigger] labels[i]).len()
            < 63 by {
            if i < labels.len() - 1 {
                assert(labels[i] == labels.drop_last()[i]);
            }
        }
    }
}

/// Makes the query for a hostname, with the next transaction number.
pub fn build_dns_query(hostname: &str, ty: RecordType, counter: &mut u16) -> (r: Result<
    (Vec<u8>, u16),
    DnsError,
>)
    ensures
        match r {
            Ok((packet, id)) => {
                &&& hostname_error(hostname@) is None
                &&& id == *old(counter)
                &&& *final(counter) == (*old(counter) + 1) % 0x1_0000
                &&& packet@ == query_bytes(id, true, labels(hostname@), ty)
            },
            Err(e) => hostname_error(hostname@) == Some(e) && *final(counter) == *old(counter),
        },
{
    match validate_dns_hostname(hostname) {
        Ok(_) => {},
        Err(e) => {
            return Err(e);
        },
    }
    proof {
        lemma_labels_fit(labels(hostname@));
    }
    let id: u16 = next_query_id(counter);
    let packet = outside::dns::query_packet(id, true, hostname, ty);
    Ok((packet, id))
}

/// Takes the addresses from a reply that was read: it must carry the query's number and report no
/// error.
pub fn accept_packet(packet: &DnsPacket, ty: RecordType, query_id: u16) -> (r: Result<
    Vec<IpAddr>,
    DnsError,
>)
    ensures
        match r {
            Ok(addrs) => packet_outcome(
                packet.id,
                packet.response_code,
                packet.answers@,
                ty,
                query_id,
            ) == Ok::<_, DnsError>(addrs@),
            Err(e) => packet_outcome(
                packet.id,
                packet.response_code,
                packet.answers@,
                ty,
                query_id,
            ) == Err::<Seq<IpAddr>, _>(e),
        },
{
    if packet.id != query_id {
        return Err(DnsError::WrongTransaction);
    }
    if packet.response_code != 0 {
        return Err(DnsError::Refused(packet.response_code));
    }
    let mut addrs: Vec<IpAddr> = Vec::new();
    let mut i: usize = 0;
    while i < packet.answers.len()
        invariant
            i <= packet.answers@.len(),
            addrs@ == answer_addrs(packet.answers@.take(i as int), ty),
        decreases packet.answers@.len() - i,
    {
        assert(packet.answers@.take(i + 1).drop_last() == packet.answers@.take(i as int));
        match (ty, packet.answers[i]) {
            (RecordType::A, AnswerData::A(ip)) => addrs.push(IpAddr::V4(ip)),
            (RecordType::Aaaa, AnswerData::Aaaa(ip)) => addrs.push(IpAddr::V6(ip)),
            _ => {},
        }
        i += 1;
    }
    assert(packet.answers@.take(i as int) == packet.answers@);
    Ok(addrs)
}

/// What the bytes of a reply come to.
pub open spec fn response_outcome(message: Seq<u8>, ty: RecordType, query_id: u16) -> Result<
    Seq<IpAddr>,
    DnsError,
> {
    match outside::dns::parsed_packet(message) {
        None => Err(DnsError::Unparsable),
        Some((id, code, answers)) => packet_outcome(id, code, answers, ty, query_id),
    }
}

/// Takes the addresses from the bytes of a reply.
pub fn parse_response(bytes: &[u8], ty: RecordType, query_id: u16) -> (r: Result<
    Vec<IpAddr>,
    DnsError,
>)
    ensures
        match r {
            Ok(addrs) => response_outcome(bytes@, ty, query_id) == Ok::<_, DnsError>(addrs@),
            Err(e) => response_outcome(bytes@, ty, query_id) == Err::<Seq<IpAddr>, _>(e),
        },
{
    match outside::dns::parse_packet(bytes) {
        None => Err(DnsError::Unparsable),
        Some(packet) => accept_packet(&packet, ty, query_id),
    }
}

/// Takes the bytes received into `buf`, if they came from the resolver that was asked. `len` is the
/// length that the socket reported.
pub fn accept_reply(resolver: SocketAddr, from: SocketAddr, buf: &[u8], len: usize) -> (r: Result<
    Vec<u8>,
    DnsError,
>)
    ensures
        match r {
            Ok(bytes) => {
                &&& from.ip().canonical() == resolver.ip().canonical()
                &&& from.port() == resolver.port()
                &&& bytes@ == buf@.take(
                    if len <= buf@.len() {
                        len as int
                    } else {
                        buf@.len() as int
                    },
                )
            },
            Err(e) => {
                &&& from.ip().canonical() != resolver.ip().canonical() || from.port()
                    != resolver.port()
                &&& e == DnsError::WrongSource(from)
            },
        },
{
    if from.ip().to_canonical() != resolver.ip().to_canonical() || from.port() != resolver.port() {
        return Err(DnsError::WrongSource(from));
    }
    let end: usize = if len <= buf.len() {
        len
    } else {
        buf.len()
    };
    let mut bytes: Vec<u8> = Vec::new();
    let mut i: usize = 0;
    while i < end
        invariant
            i <= end <= buf@.len(),
            bytes@ == buf@.take(i as int),
        decreases end - i,
    {
        bytes.push(buf[i]);
        i += 1;
    }
    Ok(bytes)
}

/// What to do about a query that has no reply yet.
#[derive(Clone, Copy, Debug, PartialEq, Eq, Structural)]
pub enum QueryStep {
    /// Send it, then wait so many seconds for a reply.
    SendThenWait(u64),
    /// Give up.
    TimedOut,
}

/// What to do about a query after so many seconds without a reply.
pub fn query_step(waited: u64) -> (r: QueryStep)
    ensures
        r == if waited >= DNS_QUERY_TIMEOUT_SECS {
            QueryStep::TimedOut
        } else {
            QueryStep::SendThenWait(DNS_RETRANSMIT_SECS)
        },
{
    if waited >= DNS_QUERY_TIMEOUT_SECS {
        QueryStep::TimedOut
    } else {
        QueryStep::SendThenWait(DNS_RETRANSMIT_SECS)
    }
}

/// The firewall mark to set on an outbound socket: zero leaves the socket unmarked.
pub fn mark_to_set(fwmark: u32) -> (r: Option<u32>)
    ensures
        r == if fwmark == 0 {
            None::<u32>
        } else {
            Some(fwmark)
        },
{
    if fwmark != 0 {
        Some(fwmark)
    } else {
        None
    }
}

/// Addresses followed by those of `records` that are not among them yet, each once.
pub open spec fn append_new(addrs: Seq<IpAddr>, records: Seq<IpAddr>) -> Seq<IpAddr>
    decreases records.len(),
{
    if records.len() == 0 {
        addrs
    } else {
        let before = append_new(addrs, records.drop_last());
        if before.contains(records.last()) {
            before
        } else {
            before.push(records.last())
        }
    }
}

/// Addresses, each once, with the sets by which one that stands already is recognised.
struct Found {
    addrs: Vec<IpAddr>,
    seen_v4: HashSet<u32>,
    seen_v6: HashSet<u128>,
}

impl Found {
    /// No address stands twice, and the two sets hold what stands in the list.
    spec fn wf(self) -> bool {
        &&& self.addrs@.no_duplicates()
        &&& forall|ip: u32| #[trigger]
            self.seen_v4@.contains(ip) <==> self.addrs@.contains(IpAddr::V4(ip))
        &&& forall|ip: u128| #[trigger]
            self.seen_v6@.contains(ip) <==> self.addrs@.contains(IpAddr::V6(ip))
    }

    /// No addresses.
    fn new() -> (r: Found)
        ensures
            r.wf(),
            r.addrs@.len() == 0,
    {
        Found { addrs: Vec::new(), seen_v4: HashSet::new(), seen_v6: HashSet::new() }
    }

    /// Adds an address unless it stands already.
    fn note(&mut self, addr: IpAddr)
        requires
            old(self).wf(),
        ensures
            final(self).wf(),
            final(self).addrs@ == if old(self).addrs@.contains(addr) {
                old(self).addrs@
            } else {
                old(self).addrs@.push(addr)
            },
    {
        broadcast use vstd::std_specs::hash::group_hash_axioms;

        let ghost before = self.addrs@;
        let fresh = match addr {
            IpAddr::V4(ip) => self.seen_v4.insert(ip),
            IpAddr::V6(ip) => self.seen_v6.insert(ip),
        };
        if fresh {
            self.addrs.push(addr);
            proof {
                assert forall|x: IpAddr| before.push(addr).contains(x) <==> before.contains(x) || x
                    == addr by {
                    if before.contains(x) {
                        let k = choose|k: int| 0 <= k < before.len() && before[k] == x;
                        assert(before.push(addr)[k] == x);
                    }
                    assert(before.push(addr)[before.len() as int] == addr);
                }
            }
        }
    }
}

/// The lookup of a hostname: first its IPv4, then its IPv6 addresses, each address once.
pub struct Resolution {
    found: Found,
    asked: u8,
}

impl Resolution {
    /// The addresses found so far.
    pub closed spec fn addrs(self) -> Seq<IpAddr> {
        self.found.addrs@
    }

    /// How many of the two questions have been answered.
    pub closed spec fn answered(self) -> nat {
        self.asked as nat
    }

    /// The question to ask after so many answers.
    pub open spec fn question(answered: nat) -> Option<RecordType> {
        if answered == 0 {
            Some(RecordType::A)
        } else if answered == 1 {
            Some(RecordType::Aaaa)
        } else {
            None
        }
    }

    /// The addresses stand once each, and no more than two questions have been answered.
    #[verifier::type_invariant]
    closed spec fn inv(self) -> bool {
        self.found.wf() && self.asked <= 2
    }

    /// Starts a lookup.
    pub fn new() -> (r: Resolution)
        ensures
            r.addrs().len() == 0,
            r.answered() == 0,
    {
        Resolution { found: Found::new(), asked: 0 }
    }

    /// The question to ask now, if one is left.
    pub fn next_query(&self) -> (r: Option<RecordType>)
        ensures
            r == Resolution::question(self.answered()),
    {
        if self.asked == 0 {
            Some(RecordType::A)
        } else if self.asked == 1 {
            Some(RecordType::Aaaa)
        } else {
            None
        }
    }

    /// Takes the answer to the question asked.
    pub fn accept(&mut self, records: &Vec<IpAddr>)
        requires
            old(self).answered() < 2,
        ensures
            final(self).answered() == old(self).answered() + 1,
            final(self).addrs() == append_new(old(self).addrs(), records@),
            final(self).addrs().no_duplicates(),
    {
        proof {
            use_type_invariant(&*self);
        }
        let mut found = Found::new();
        std::mem::swap(&mut found, &mut self.found);
        let ghost before = found.addrs@;
        let mut i: usize = 0;
        assert(records@.take(0) == Seq::<IpAddr>::empty());
        while i < records.len()
            invariant
                i <= records@.len(),
                found.wf(),
                found.addrs@ == append_new(before, records@.take(i as int)),
            decreases records@.len() - i,
        {
            assert(records@.take(i + 1).drop_last() == records@.take(i as int));
            found.note(records[i]);
            i += 1;
        }
        assert(records@.take(i as int) == records@);
        self.found = found;
        self.asked = self.asked + 1;
    }

    /// The addresses found.
    pub fn finish(self) -> (r: Vec<IpAddr>)
        ensures
            r@ == self.addrs(),
            r@.no_duplicates(),
    {
        proof {
            use_type_invariant(&self);
        }
        self.found.addrs
    }
}

}
