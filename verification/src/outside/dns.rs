//! Calls into `dns_parser`.

use crate::dns;
use crate::dns::{AnswerData, DnsPacket, RecordType};
use vstd::prelude::*;
use vstd::utf8;

verus! {

/// What `dns_parser::Packet::parse` reads from a message: the transaction number, the number of the
/// response code and the data of the answers, in order; `None` where it returns an error.
pub uninterp spec fn parsed_packet(message: Seq<u8>) -> Option<(u16, u8, Seq<AnswerData>)>;

/// `dns_parser::Packet::parse` reads a whole message. Its result is a function of the bytes alone.
/// Here the `id` and `response_code` of the header and the `data` of each answer are copied out;
/// answers other than addresses are told apart no further.
#[verifier::external_body]
pub(crate) fn parse_packet(message: &[u8]) -> (r: Option<DnsPacket>)
    ensures
        match r {
            Some(packet) => parsed_packet(message@) == Some(
                (packet.id, packet.response_code, packet.answers@),
            ),
            None => parsed_packet(message@) is None,
        },
{
    let packet = dns_parser::Packet::parse(message).ok()?;
    let answers = packet.answers.iter().map(
        |answer|
            match &answer.data {
                dns_parser::RData::A(record) => AnswerData::A(u32::from(record.0)),
                dns_parser::RData::AAAA(record) => AnswerData::Aaaa(u128::from(record.0)),
                _ => AnswerData::Other,
            },
    ).collect();
    let response_code = packet.header.response_code.into();
    Some(DnsPacket { id: packet.header.id, response_code, answers })
}

/// `dns_parser::Builder` makes a query from `new_query`, `add_question` and `build`: a header of
/// twelve bytes, then the question in the Internet class, the name as one byte of length and the
/// bytes of each label, and a zero. `add_question` panics where a label has 63 bytes or more;
/// `build` rewrites the header of a packet of more than 512 bytes.
#[verifier::external_body]
pub(crate) fn query_packet(id: u16, recursion: bool, hostname: &str, ty: RecordType) -> (r: Vec<u8>)
    requires
        utf8::encode_utf8(hostname@).len() <= 255,
        forall|i: int|
            0 <= i < dns::labels(hostname@).len() ==> (#[trigger] dns::labels(hostname@)[i]).len()
                < 63,
    ensures
        r@ == dns::query_bytes(id, recursion, dns::labels(hostname@), ty),
{
    let query_type = match ty {
        RecordType::A => dns_parser::QueryType::A,
        RecordType::Aaaa => dns_parser::QueryType::AAAA,
    };
    let mut builder = dns_parser::Builder::new_query(id, recursion);
    builder.add_question(hostname, false, query_type, dns_parser::QueryClass::IN);
    match builder.build() {
        Ok(packet) => packet,
        Err(packet) => packet,
    }
}

}
