//! What holds of every lookup.

use crate::addr::{IpAddr, SocketAddr};
use crate::dns;
use crate::dns::{AnswerData, DnsError, RecordType};
use crate::outside;
use crate::text;
use vstd::prelude::*;
use vstd::utf8;

verus! {

/// The address that an answer gives to a question, if it gives one.
pub open spec fn answered(answer: AnswerData, ty: RecordType) -> Option<IpAddr> {
    match (ty, answer) {
        (RecordType::A, AnswerData::A(ip)) => Some(IpAddr::V4(ip)),
        (RecordType::Aaaa, AnswerData::Aaaa(ip)) => Some(IpAddr::V6(ip)),
        _ => None,
    }
}

/// Exactly the addresses of the wanted kind are taken from the answers.
pub proof fn law_wanted_answers_taken(answers: Seq<AnswerData>, ty: RecordType, ip: IpAddr)
    ensures
        dns::answer_addrs(answers, ty).contains(ip) <==> exists|i: int|
            0 <= i < answers.len() && answered(#[trigger] answers[i], ty) == Some(ip),
    decreases answers.len(),
{
    if answers.len() > 0 {
        let init = answers.drop_last();
        let before = dns::answer_addrs(init, ty);
        let now = dns::answer_addrs(answers, ty);
        law_wanted_answers_taken(init, ty, ip);
        if before.contains(ip) {
            let i = choose|i: int|
                0 <= i < init.len() && answered(#[trigger] init[i], ty) == Some(ip);
            assert(answered(answers[i], ty) == Some(ip));
            let k = choose|k: int| 0 <= k < before.len() && before[k] == ip;
            assert(now[k] == ip);
        }
        if answered(answers.last(), ty) == Some(ip) {
            assert(now.last() == ip);
            assert(answers[answers.len() - 1] == answers.last());
        }
        if now.contains(ip) && !before.contains(ip) {
            let k = choose|k: int| 0 <= k < now.len() && now[k] == ip;
            if k < before.len() {
                assert(before[k] == ip);
            }
            assert(answered(answers[answers.len() - 1], ty) == Some(ip));
        }
        if exists|i: int| 0 <= i < answers.len() && answered(#[trigger] answers[i], ty) == Some(ip) {
            let i = choose|i: int|
                0 <= i < answers.len() && answered(#[trigger] answers[i], ty) == Some(ip);
            if i < init.len() {
                assert(answered(init[i], ty) == Some(ip));
            }
        }
    }
}

/// Adding records keeps the addresses that are there, at their places, adds no others than the records,
/// loses none of them, and makes no duplicates.
pub proof fn law_each_address_once(addrs: Seq<IpAddr>, records: Seq<IpAddr>)
    ensures
        dns::append_new(addrs, records).len() >= addrs.len(),
        dns::append_new(addrs, records).take(addrs.len() as int) == addrs,
        forall|ip: IpAddr|
            dns::append_new(addrs, records).contains(ip) <==> addrs.contains(ip)
                || records.contains(ip),
        addrs.no_duplicates() ==> dns::append_new(addrs, records).no_duplicates(),
    decreases records.len(),
{
    let now = dns::append_new(addrs, records);
    if records.len() > 0 {
        let init = records.drop_last();
        let last = records.last();
        let before = dns::append_new(addrs, init);
        law_each_address_once(addrs, init);
        assert(now.take(addrs.len() as int) == before.take(addrs.len() as int));
        assert forall|ip: IpAddr| records.contains(ip) <==> init.contains(ip) || ip == last by {
            if init.contains(ip) {
                let k = choose|k: int| 0 <= k < init.len() && init[k] == ip;
                assert(records[k] == ip);
            }
            if records.contains(ip) {
                let k = choose|k: int| 0 <= k < records.len() && records[k] == ip;
                if k < init.len() {
                    assert(init[k] == ip);
                }
            }
            assert(records[records.len() - 1] == last);
        }
        if !before.contains(last) {
            assert forall|ip: IpAddr| now.contains(ip) <==> before.contains(ip) || ip == last by {
                if before.contains(ip) {
                    let k = choose|k: int| 0 <= k < before.len() && before[k] == ip;
                    assert(now[k] == ip);
                }
                if now.contains(ip) {
                    let k = choose|k: int| 0 <= k < now.len() && now[k] == ip;
                    if k < before.len() {
                        assert(before[k] == ip);
                    }
                }
                assert(now[before.len() as int] == last);
            }
        }
    } else {
        assert(now.take(addrs.len() as int) == addrs);
        assert(forall|ip: IpAddr| !records.contains(ip));
    }
}

/// The addresses that a lookup finds, given the answers to its two questions.
pub open spec fn lookup(v4: Seq<AnswerData>, v6: Seq<AnswerData>) -> Seq<IpAddr> {
    dns::append_new(
        dns::append_new(Seq::empty(), dns::answer_addrs(v4, RecordType::A)),
        dns::answer_addrs(v6, RecordType::Aaaa),
    )
}

/// A lookup finds every IPv4 address of the first answer and every IPv6 address of the second, no
/// others, each once, and the IPv4 addresses come first.
pub proof fn law_lookup_complete(v4: Seq<AnswerData>, v6: Seq<AnswerData>)
    ensures
        lookup(v4, v6).no_duplicates(),
        forall|ip: u32|
            #[trigger] lookup(v4, v6).contains(IpAddr::V4(ip)) <==> v4.contains(AnswerData::A(ip)),
        forall|ip: u128|
            #[trigger] lookup(v4, v6).contains(IpAddr::V6(ip)) <==> v6.contains(
                AnswerData::Aaaa(ip),
            ),
        forall|i: int, j: int|
            0 <= i <= j < lookup(v4, v6).len() && (#[trigger] lookup(v4, v6)[j]) is V4 ==> (
            #[trigger] lookup(v4, v6)[i]) is V4,
{
    let a = dns::answer_addrs(v4, RecordType::A);
    let b = dns::answer_addrs(v6, RecordType::Aaaa);
    let first = dns::append_new(Seq::empty(), a);
    let all = lookup(v4, v6);
    law_each_address_once(Seq::empty(), a);
    law_each_address_once(first, b);
    assert forall|ip: u32| #[trigger] all.contains(IpAddr::V4(ip)) <==> v4.contains(
        AnswerData::A(ip),
    ) by {
        law_wanted_answers_taken(v4, RecordType::A, IpAddr::V4(ip));
        law_wanted_answers_taken(v6, RecordType::Aaaa, IpAddr::V4(ip));
        if v4.contains(AnswerData::A(ip)) {
            let k = choose|k: int| 0 <= k < v4.len() && v4[k] == AnswerData::A(ip);
            assert(answered(v4[k], RecordType::A) == Some(IpAddr::V4(ip)));
        }
    }
    assert forall|ip: u128| #[trigger] all.contains(IpAddr::V6(ip)) <==> v6.contains(
        AnswerData::Aaaa(ip),
    ) by {
        law_wanted_answers_taken(v4, RecordType::A, IpAddr::V6(ip));
        law_wanted_answers_taken(v6, RecordType::Aaaa, IpAddr::V6(ip));
        if v6.contains(AnswerData::Aaaa(ip)) {
            let k = choose|k: int| 0 <= k < v6.len() && v6[k] == AnswerData::Aaaa(ip);
            assert(answered(v6[k], RecordType::Aaaa) == Some(IpAddr::V6(ip)));
        }
    }
    assert forall|i: int, j: int| 0 <= i <= j < all.len() && (#[trigger] all[j]) is V4 implies (
    #[trigger] all[i]) is V4 by {
        law_wanted_answers_taken(v6, RecordType::Aaaa, all[j]);
        assert(all.contains(all[j]));
        assert(first.contains(all[j]));
        let k = choose|k: int| 0 <= k < first.len() && first[k] == all[j];
        assert(all.take(first.len() as int)[k] == all[k]);
        assert(k == j);
        assert(all.take(first.len() as int)[i] == all[i]);
        assert(first.contains(all[i]));
        law_wanted_answers_taken(v4, RecordType::A, all[i]);
    }
}

/// The counter of transaction numbers after so many queries.
pub open spec fn counter_after(counter: nat, queries: nat) -> nat
    decreases queries,
{
    if queries == 0 {
        counter
    } else {
        (counter_after(counter, (queries - 1) as nat) + 1) % 0x1_0000
    }
}

/// No transaction number comes twice within 65536 queries.
pub proof fn law_transaction_numbers_differ(counter: nat, i: nat, j: nat)
    requires
        counter < 0x1_0000,
        i < j < i + 0x1_0000,
    ensures
        counter_after(counter, i) != counter_after(counter, j),
{
    lemma_counter(counter, i);
    lemma_counter(counter, j);
}

/// The counter counts, modulo 65536.
proof fn lemma_counter(counter: nat, queries: nat)
    requires
        counter < 0x1_0000,
    ensures
        counter_after(counter, queries) == (counter + queries) % 0x1_0000,
    decreases queries,
{
    if queries > 0 {
        lemma_counter(counter, (queries - 1) as nat);
    }
}

/// The labels of a message from the front.
proof fn lemma_wire_front(labels: Seq<Seq<u8>>)
    requires
        labels.len() > 0,
    ensures
        dns::labels_wire(labels) == seq![labels[0].len() as u8] + labels[0] + dns::labels_wire(
            labels.drop_first(),
        ),
    decreases labels.len(),
{
    if labels.len() == 1 {
        assert(labels.drop_last() == Seq::<Seq<u8>>::empty());
        assert(labels.drop_first() == Seq::<Seq<u8>>::empty());
        assert(dns::labels_wire(labels) == seq![labels[0].len() as u8] + labels[0]
            + dns::labels_wire(labels.drop_first()));
    } else {
        lemma_wire_front(labels.drop_last());
        assert(labels.drop_last().drop_first() == labels.drop_first().drop_last());
        assert(dns::labels_wire(labels) == seq![labels[0].len() as u8] + labels[0]
            + dns::labels_wire(labels.drop_first()));
    }
}

/// Labels up to the closing zero can be read in one way only.
proof fn lemma_wire_unambiguous(a: Seq<Seq<u8>>, b: Seq<Seq<u8>>, s: Seq<u8>, t: Seq<u8>)
    requires
        dns::labels_error(a) is None,
        dns::labels_error(b) is None,
        s.len() > 0,
        t.len() > 0,
        s[0] == 0,
        t[0] == 0,
        dns::labels_wire(a) + s == dns::labels_wire(b) + t,
    ensures
        a == b,
        s == t,
    decreases a.len(),
{
    dns::lemma_labels_fit(a);
    dns::lemma_labels_fit(b);
    let whole = dns::labels_wire(a) + s;
    if a.len() > 0 {
        lemma_wire_front(a);
    }
    if b.len() > 0 {
        lemma_wire_front(b);
    }
    if a.len() == 0 {
        assert(whole[0] == s[0]);
        if b.len() > 0 {
            assert((dns::labels_wire(b) + t)[0] == b[0].len());
        }
        assert(dns::labels_wire(a) + s == s);
        assert(dns::labels_wire(b) + t == t);
        assert(a == b);
    } else {
        assert(whole[0] == a[0].len());
        if b.len() == 0 {
            assert((dns::labels_wire(b) + t)[0] == t[0]);
        } else {
            assert((dns::labels_wire(b) + t)[0] == b[0].len());
            let n = a[0].len() as int;
            assert(whole.subrange(1, 1 + n) == a[0]);
            assert(whole.subrange(1, 1 + n) == b[0]);
            assert(whole.skip(1 + n) == dns::labels_wire(a.drop_first()) + s);
            assert(whole.skip(1 + n) == dns::labels_wire(b.drop_first()) + t);
            lemma_tail_labels(a);
            lemma_tail_labels(b);
            lemma_wire_unambiguous(a.drop_first(), b.drop_first(), s, t);
            assert(a == seq![a[0]] + a.drop_first());
            assert(b == seq![b[0]] + b.drop_first());
        }
    }
}

/// Without its first label, a hostname that is not refused has no refused label either.
proof fn lemma_tail_labels(labels: Seq<Seq<u8>>)
    requires
        labels.len() > 0,
        dns::labels_error(labels) is None,
    ensures
        dns::labels_error(labels.drop_first()) is None,
    decreases labels.len(),
{
    if labels.len() > 1 {
        lemma_tail_labels(labels.drop_last());
        assert(labels.drop_last().drop_first() == labels.drop_first().drop_last());
    }
}

/// A query says which hostname, kind of record and transaction it is for: no two queries for different
/// ones are the same bytes.
pub proof fn law_query_unambiguous(
    hostname_a: Seq<char>,
    hostname_b: Seq<char>,
    ty_a: RecordType,
    ty_b: RecordType,
    id_a: u16,
    id_b: u16,
)
    requires
        dns::hostname_error(hostname_a) is None,
        dns::hostname_error(hostname_b) is None,
        dns::query_bytes(id_a, true, dns::labels(hostname_a), ty_a) == dns::query_bytes(
            id_b,
            true,
            dns::labels(hostname_b),
            ty_b,
        ),
    ensures
        hostname_a == hostname_b,
        ty_a == ty_b,
        id_a == id_b,
{
    let a = dns::query_bytes(id_a, true, dns::labels(hostname_a), ty_a);
    let b = dns::query_bytes(id_b, true, dns::labels(hostname_b), ty_b);
    let s = seq![0u8, 0, ty_a.code(), 0, 1];
    let t = seq![0u8, 0, ty_b.code(), 0, 1];
    assert(a[0] == id_a / 256 && a[1] == id_a % 256);
    assert(b[0] == id_b / 256 && b[1] == id_b % 256);
    assert(a.skip(12) == dns::labels_wire(dns::labels(hostname_a)) + s);
    assert(b.skip(12) == dns::labels_wire(dns::labels(hostname_b)) + t);
    lemma_wire_unambiguous(dns::labels(hostname_a), dns::labels(hostname_b), s, t);
    assert(s[2] == t[2]);
    text::lemma_join_split(utf8::encode_utf8(hostname_a), 46u8);
    text::lemma_join_split(utf8::encode_utf8(hostname_b), 46u8);
    utf8::encode_utf8_decode_utf8(hostname_a);
    utf8::encode_utf8_decode_utf8(hostname_b);
}

/// A reply to another transaction, or one that reports an error, gives no addresses.
pub proof fn law_foreign_replies_refused(
    id: u16,
    response_code: u8,
    answers: Seq<AnswerData>,
    ty: RecordType,
    query_id: u16,
)
    ensures
        dns::packet_outcome(id, response_code, answers, ty, query_id) is Ok <==> id == query_id
            && response_code == 0,
        id != query_id ==> dns::packet_outcome(id, response_code, answers, ty, query_id) == Err::<
            Seq<IpAddr>,
            DnsError,
        >(DnsError::WrongTransaction),
{
}

/// Whether an answer is of the wanted kind.
pub open spec fn is_wanted(answer: AnswerData, ty: RecordType) -> bool {
    match ty {
        RecordType::A => answer is A,
        RecordType::Aaaa => answer is Aaaa,
    }
}

/// The address in an answer that holds one.
pub open spec fn address_in(answer: AnswerData) -> IpAddr {
    match answer {
        AnswerData::A(ip) => IpAddr::V4(ip),
        AnswerData::Aaaa(ip) => IpAddr::V6(ip),
        AnswerData::Other => arbitrary(),
    }
}

/// The addresses taken from answers are, in order, those of the answers of the wanted kind.
proof fn lemma_addresses_filtered(answers: Seq<AnswerData>, ty: RecordType)
    ensures
        dns::answer_addrs(answers, ty) == answers.filter(
            |a: AnswerData| is_wanted(a, ty),
        ).map_values(|a: AnswerData| address_in(a)),
    decreases answers.len(),
{
    reveal(Seq::filter);
    let wanted = |a: AnswerData| is_wanted(a, ty);
    let address = |a: AnswerData| address_in(a);
    let all = answers.filter(wanted).map_values(address);
    if answers.len() > 0 {
        lemma_addresses_filtered(answers.drop_last(), ty);
        let before = answers.drop_last().filter(wanted);
        assert(before.push(answers.last()).map_values(address) == before.map_values(address).push(
            address(answers.last()),
        ));
        assert(dns::answer_addrs(answers, ty) == all);
    } else {
        assert(dns::answer_addrs(answers, ty) == all);
    }
}

/// A reply that carries the query's number and reports no error gives, in order, exactly the addresses
/// of its answers of the wanted kind, whatever other answers stand among them.
pub proof fn law_reply_addresses(id: u16, answers: Seq<AnswerData>, ty: RecordType)
    ensures
        dns::packet_outcome(id, 0, answers, ty, id) == Ok::<Seq<IpAddr>, DnsError>(
            answers.filter(|a: AnswerData| is_wanted(a, ty)).map_values(
                |a: AnswerData| address_in(a),
            ),
        ),
{
    lemma_addresses_filtered(answers, ty);
}

/// The addresses from a row of answers are those from its beginning, then those from the rest.
proof fn lemma_addresses_in_parts(a: Seq<AnswerData>, b: Seq<AnswerData>, ty: RecordType)
    ensures
        dns::answer_addrs(a + b, ty) == dns::answer_addrs(a, ty) + dns::answer_addrs(b, ty),
    decreases b.len(),
{
    if b.len() > 0 {
        lemma_addresses_in_parts(a, b.drop_last(), ty);
        assert((a + b).drop_last() == a + b.drop_last());
        assert((a + b).last() == b.last());
        assert(dns::answer_addrs(a + b, ty) == dns::answer_addrs(a, ty) + dns::answer_addrs(b, ty));
    } else {
        assert(a + b == a);
        assert(dns::answer_addrs(a + b, ty) == dns::answer_addrs(a, ty) + dns::answer_addrs(b, ty));
    }
}

/// An answer of another kind changes nothing wherever it stands, and one of the wanted kind adds its
/// address at its place.
pub proof fn law_answer_at_its_place(
    id: u16,
    a: Seq<AnswerData>,
    answer: AnswerData,
    b: Seq<AnswerData>,
    ty: RecordType,
)
    ensures
        !is_wanted(answer, ty) ==> dns::packet_outcome(id, 0, a + seq![answer] + b, ty, id)
            == dns::packet_outcome(id, 0, a + b, ty, id),
        is_wanted(answer, ty) ==> dns::packet_outcome(id, 0, a + seq![answer] + b, ty, id) == Ok::<
            Seq<IpAddr>,
            DnsError,
        >(
            dns::packet_outcome(id, 0, a, ty, id)->Ok_0 + seq![address_in(answer)]
                + dns::packet_outcome(id, 0, b, ty, id)->Ok_0,
        ),
{
    lemma_addresses_in_parts(a + seq![answer], b, ty);
    lemma_addresses_in_parts(a, seq![answer], ty);
    lemma_addresses_in_parts(a, b, ty);
    let one = seq![answer];
    assert(one.drop_last() == Seq::<AnswerData>::empty());
    assert(one.last() == answer);
    reveal_with_fuel(dns::answer_addrs, 2);
    if is_wanted(answer, ty) {
        assert(dns::answer_addrs(one, ty) == seq![address_in(answer)]);
    } else {
        assert(dns::answer_addrs(one, ty) == Seq::<IpAddr>::empty());
        assert(dns::answer_addrs(a, ty) + Seq::<IpAddr>::empty() == dns::answer_addrs(a, ty));
    }
}

/// The bytes of a reply come to what the packet read from them says: unreadable bytes, a foreign
/// number and a reported error are refused in this order, and otherwise the wanted addresses are taken.
pub proof fn law_reply_judged(message: Seq<u8>, ty: RecordType, query_id: u16)
    ensures
        outside::dns::parsed_packet(message) is None ==> dns::response_outcome(
            message,
            ty,
            query_id,
        ) == Err::<Seq<IpAddr>, DnsError>(DnsError::Unparsable),
        outside::dns::parsed_packet(message) matches Some((id, code, answers)) ==> {
            let r = dns::response_outcome(message, ty, query_id);
            &&& id != query_id ==> r == Err::<Seq<IpAddr>, DnsError>(DnsError::WrongTransaction)
            &&& id == query_id && code != 0 ==> r == Err::<Seq<IpAddr>, DnsError>(
                DnsError::Refused(code),
            )
            &&& id == query_id && code == 0 ==> r == Ok::<Seq<IpAddr>, DnsError>(
                answers.filter(|a: AnswerData| is_wanted(a, ty)).map_values(
                    |a: AnswerData| address_in(a),
                ),
            )
        },
{
    if let Some((id, code, answers)) = outside::dns::parsed_packet(message) {
        lemma_addresses_filtered(answers, ty);
    }
}

/// A packet with a foreign number is refused for that, and one that reports an error for the error.
pub proof fn law_packet_refused(
    id: u16,
    code: u8,
    answers: Seq<AnswerData>,
    ty: RecordType,
    query_id: u16,
)
    ensures
        id != query_id ==> dns::packet_outcome(id, code, answers, ty, query_id) == Err::<
            Seq<IpAddr>,
            DnsError,
        >(DnsError::WrongTransaction),
        id == query_id && code != 0 ==> dns::packet_outcome(id, code, answers, ty, query_id)
            == Err::<Seq<IpAddr>, DnsError>(DnsError::Refused(code)),
{
}

/// Records are added one by one, in their order, each at the end unless it is there already.
pub proof fn law_records_added_in_order(
    addrs: Seq<IpAddr>,
    first: Seq<IpAddr>,
    second: Seq<IpAddr>,
    record: IpAddr,
)
    ensures
        dns::append_new(addrs, Seq::empty()) == addrs,
        dns::append_new(addrs, first + second) == dns::append_new(
            dns::append_new(addrs, first),
            second,
        ),
        addrs.contains(record) ==> dns::append_new(addrs, seq![record]) == addrs,
        !addrs.contains(record) ==> dns::append_new(addrs, seq![record]) == addrs.push(record),
        (addrs + first).no_duplicates() ==> dns::append_new(addrs, first) == addrs + first,
    decreases first.len() + second.len(),
{
    let one = seq![record];
    assert(one.drop_last() == Seq::<IpAddr>::empty());
    assert(one.last() == record);
    reveal_with_fuel(dns::append_new, 2);
    if second.len() > 0 {
        law_records_added_in_order(addrs, first, second.drop_last(), record);
        assert((first + second).drop_last() == first + second.drop_last());
        assert((first + second).last() == second.last());
    } else {
        assert(first + second == first);
    }
    if (addrs + first).no_duplicates() {
        lemma_new_records_appended(addrs, first);
    }
}

/// Records that are all new are appended as they are.
proof fn lemma_new_records_appended(addrs: Seq<IpAddr>, records: Seq<IpAddr>)
    requires
        (addrs + records).no_duplicates(),
    ensures
        dns::append_new(addrs, records) == addrs + records,
    decreases records.len(),
{
    let all = addrs + records;
    if records.len() > 0 {
        let init = records.drop_last();
        assert(all.drop_last() == addrs + init);
        assert((addrs + init).no_duplicates()) by {
            assert forall|i: int, j: int|
                0 <= i < (addrs + init).len() && 0 <= j < (addrs + init).len() && i != j implies (
            addrs + init)[i] != (addrs + init)[j] by {
                assert(all[i] != all[j]);
            }
        }
        lemma_new_records_appended(addrs, init);
        assert(!(addrs + init).contains(records.last())) by {
            if (addrs + init).contains(records.last()) {
                let k = choose|k: int|
                    0 <= k < (addrs + init).len() && (addrs + init)[k] == records.last();
                assert(all[k] == all[all.len() - 1]);
            }
        }
        assert((addrs + init).push(records.last()) == all);
    } else {
        assert(all == addrs);
    }
}

/// A lookup asks for IPv4 addresses, then for IPv6 addresses, then no more.
pub proof fn law_ipv4_asked_first(answered: nat)
    ensures
        answered == 0 ==> dns::Resolution::question(answered) == Some(RecordType::A),
        answered == 1 ==> dns::Resolution::question(answered) == Some(RecordType::Aaaa),
        answered >= 2 ==> dns::Resolution::question(answered) is None,
{
}

/// Where the first refused label stands, and why it is refused.
proof fn lemma_first_refused_label(labels: Seq<Seq<u8>>)
    ensures
        dns::labels_error(labels) is None <==> forall|i: int|
            0 <= i < labels.len() ==> 1 <= (#[trigger] labels[i]).len() <= 62,
        dns::labels_error(labels) matches Some(e) ==> exists|i: int|
            {
                &&& 0 <= i < labels.len()
                &&& forall|k: int| 0 <= k < i ==> 1 <= (#[trigger] labels[k]).len() <= 62
                &&& e == DnsError::EmptyLabel && (#[trigger] labels[i]).len() == 0 || e
                    == DnsError::LongLabel && labels[i].len() > 62
            },
    decreases labels.len(),
{
    if labels.len() > 0 {
        let init = labels.drop_last();
        lemma_first_refused_label(init);
        assert(forall|i: int| 0 <= i < init.len() ==> #[trigger] init[i] == labels[i]);
        if dns::labels_error(init) is Some {
            let e = dns::labels_error(init)->0;
            let i = choose|i: int|
                {
                    &&& 0 <= i < init.len()
                    &&& forall|k: int| 0 <= k < i ==> 1 <= (#[trigger] init[k]).len() <= 62
                    &&& e == DnsError::EmptyLabel && (#[trigger] init[i]).len() == 0 || e
                        == DnsError::LongLabel && init[i].len() > 62
                };
            assert(labels[i] == init[i]);
            assert forall|k: int| 0 <= k < i implies 1 <= (#[trigger] labels[k]).len() <= 62 by {
                assert(init[k] == labels[k]);
            }
        } else {
            let n = labels.len() - 1;
            assert(labels[n] == labels.last());
            assert forall|k: int| 0 <= k < n implies 1 <= (#[trigger] labels[k]).len() <= 62 by {
                assert(init[k] == labels[k]);
            }
        }
    }
}

/// A hostname can be asked for exactly if it has 1 to 255 bytes and each piece between its dots has 1
/// to 62; otherwise the length, or the first bad piece, is reported.
pub proof fn law_hostname_checked(hostname: Seq<char>)
    ensures
        ({
            let bytes = utf8::encode_utf8(hostname);
            let pieces = text::split(bytes, 46u8);
            &&& bytes.len() == 0 || bytes.len() > 255 ==> dns::hostname_error(hostname) == Some(
                DnsError::InvalidHostname,
            )
            &&& dns::hostname_error(hostname) is None <==> 1 <= bytes.len() <= 255 && forall|i: int|
                0 <= i < pieces.len() ==> 1 <= (#[trigger] pieces[i]).len() <= 62
            &&& 1 <= bytes.len() <= 255 && dns::hostname_error(hostname) is Some ==> exists|i: int|
                {
                    &&& 0 <= i < pieces.len()
                    &&& forall|k: int| 0 <= k < i ==> 1 <= (#[trigger] pieces[k]).len() <= 62
                    &&& dns::hostname_error(hostname) == Some(DnsError::EmptyLabel) && (
                    #[trigger] pieces[i]).len() == 0 || dns::hostname_error(hostname) == Some(
                        DnsError::LongLabel,
                    ) && pieces[i].len() > 62
                }
        }),
{
    lemma_first_refused_label(text::split(utf8::encode_utf8(hostname), 46u8));
}

/// A query begins with its number, asks for recursion where wanted, and holds one question: the pieces
/// of the name, each behind its length, a zero, the kind of record and the Internet class.
pub proof fn law_query_format(
    id: u16,
    recursion: bool,
    labels: Seq<Seq<u8>>,
    label: Seq<u8>,
    ty: RecordType,
)
    ensures
        ({
            let q = dns::query_bytes(id, recursion, labels, ty);
            let n = dns::labels_wire(labels).len() as int;
            &&& q.len() == 12 + n + 5
            &&& q[0] * 256 + q[1] == id
            &&& q[2] == if recursion {
                1int
            } else {
                0int
            }
            &&& q[3] == 0
            &&& q[4] == 0 && q[5] == 1
            &&& forall|i: int| 6 <= i < 12 ==> #[trigger] q[i] == 0
            &&& q.subrange(12, 12 + n) == dns::labels_wire(labels)
            &&& q[12 + n] == 0
            &&& q[13 + n] == 0
            &&& ty == RecordType::A ==> q[14 + n] == 1
            &&& ty == RecordType::Aaaa ==> q[14 + n] == 28
            &&& q[15 + n] == 0 && q[16 + n] == 1
        }),
        dns::labels_wire(Seq::empty()) == Seq::<u8>::empty(),
        label.len() < 256 ==> dns::labels_wire(labels.push(label)) == dns::labels_wire(labels)
            + seq![label.len() as u8] + label,
{
    let q = dns::query_bytes(id, recursion, labels, ty);
    let n = dns::labels_wire(labels).len() as int;
    assert(q.subrange(12, 12 + n) == dns::labels_wire(labels));
    assert(labels.push(label).drop_last() == labels);
    assert(dns::labels_wire(labels).push(label.len() as u8) == dns::labels_wire(labels) + seq![
        label.len() as u8,
    ]);
}

/// The labels of a hostname are the pieces between its dots.
pub proof fn law_labels_between_dots(hostname: Seq<char>)
    ensures
        dns::labels(hostname) == text::split(utf8::encode_utf8(hostname), 46u8),
        text::join(dns::labels(hostname), 46u8) == utf8::encode_utf8(hostname),
{
    text::lemma_join_split(utf8::encode_utf8(hostname), 46u8);
}

/// A reported error is named in the message, each number by its own name, and so is an unexpected
/// source.
pub proof fn law_refusal_names_cause(code: u8, from: SocketAddr)
    ensures
        DnsError::WrongSource(from).text() == "received DNS response from unexpected address "@
            + from.text(),
        DnsError::Refused(code).text() == "resolver returned DNS error "@ + dns::code_name(code),
        code == 1 ==> dns::code_name(code) == "FormatError"@,
        code == 2 ==> dns::code_name(code) == "ServerFailure"@,
        code == 3 ==> dns::code_name(code) == "NameError"@,
        code == 4 ==> dns::code_name(code) == "NotImplemented"@,
        code == 5 ==> dns::code_name(code) == "Refused"@,
        code > 5 ==> dns::code_name(code) == "Reserved("@ + text::decimal(code as nat) + ")"@,
{
}

}
