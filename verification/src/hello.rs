//! The first bytes of a connection: whether they are a TLS ClientHello, and which server it names.

use crate::outside;
use crate::text;
use vstd::prelude::*;
use vstd::slice::slice_to_vec;
use vstd::string::StringExecFns;
use vstd::utf8;

verus! {

/// How many bytes may be read before the server name is known.
pub const MAX_CLIENT_HELLO_SIZE: usize = 65536;

/// How many bytes the header of a TLS record has.
pub const RECORD_HEADER_SIZE: usize = 5;

/// The record type of a handshake.
pub const HANDSHAKE_RECORD: u8 = 0x16;

/// How many bytes a server name may have.
pub const MAX_SERVER_NAME: usize = 255;

/// A message of a TLS record.
pub enum RecordMessage {
    /// A ClientHello, with the bytes of its extensions if it has any.
    ClientHello(Option<Vec<u8>>),
    Other,
}

/// A message of a TLS record, as a mathematical value.
pub ghost enum MessageView {
    ClientHello(Option<Seq<u8>>),
    Other,
}

/// An extension of a ClientHello.
pub enum HelloExtension {
    /// Server names: the number of the type and the bytes of each.
    Sni(Vec<(u8, Vec<u8>)>),
    Other,
}

/// An extension of a ClientHello, as a mathematical value.
pub ghost enum ExtensionView {
    Sni(Seq<(u8, Seq<u8>)>),
    Other,
}

impl View for RecordMessage {
    type V = MessageView;

    open spec fn view(&self) -> MessageView {
        match self {
            RecordMessage::ClientHello(Some(bytes)) => MessageView::ClientHello(Some(bytes@)),
            RecordMessage::ClientHello(None) => MessageView::ClientHello(None),
            RecordMessage::Other => MessageView::Other,
        }
    }
}

impl View for HelloExtension {
    type V = ExtensionView;

    open spec fn view(&self) -> ExtensionView {
        match self {
            HelloExtension::Sni(entries) => ExtensionView::Sni(entries_view(entries@)),
            HelloExtension::Other => ExtensionView::Other,
        }
    }
}

/// Server names as mathematical values.
pub open spec fn entries_view(entries: Seq<(u8, Vec<u8>)>) -> Seq<(u8, Seq<u8>)> {
    entries.map_values(|e: (u8, Vec<u8>)| (e.0, e.1@))
}

/// Messages as mathematical values.
pub open spec fn messages_view(messages: Seq<RecordMessage>) -> Seq<MessageView> {
    messages.map_values(|m: RecordMessage| m@)
}

/// Extensions as mathematical values.
pub open spec fn extensions_view(extensions: Seq<HelloExtension>) -> Seq<ExtensionView> {
    extensions.map_values(|e: HelloExtension| e@)
}

/// The hostname that one server name spells: type zero, 1 to 255 bytes, valid UTF-8.
pub open spec fn entry_name(entry: (u8, Seq<u8>)) -> Option<Seq<char>> {
    if entry.0 == 0 && 0 < entry.1.len() <= MAX_SERVER_NAME && utf8::valid_utf8(entry.1) {
        Some(utf8::decode_utf8(entry.1))
    } else {
        None
    }
}

/// The hostname of the first server name that spells one.
pub open spec fn entries_name(entries: Seq<(u8, Seq<u8>)>) -> Option<Seq<char>>
    decreases entries.len(),
{
    if entries.len() == 0 {
        None
    } else if entry_name(entries.first()) is Some {
        entry_name(entries.first())
    } else {
        entries_name(entries.drop_first())
    }
}

/// The hostname of the first extension that has one.
pub open spec fn extensions_name(extensions: Seq<ExtensionView>) -> Option<Seq<char>>
    decreases extensions.len(),
{
    if extensions.len() == 0 {
        None
    } else {
        match extensions.first() {
            ExtensionView::Sni(entries) if entries_name(entries) is Some => entries_name(entries),
            _ => extensions_name(extensions.drop_first()),
        }
    }
}

/// The hostname in the bytes of the extensions of a ClientHello.
pub open spec fn hello_name(bytes: Seq<u8>) -> Option<Seq<char>> {
    match outside::tls::parsed_extensions(bytes) {
        Some(extensions) => extensions_name(extensions),
        None => None,
    }
}

/// The hostname of the first ClientHello that names one; a ClientHello without extensions ends the
/// search.
pub open spec fn messages_name(messages: Seq<MessageView>) -> Option<Seq<char>>
    decreases messages.len(),
{
    if messages.len() == 0 {
        None
    } else {
        match messages.first() {
            MessageView::ClientHello(None) => None,
            MessageView::ClientHello(Some(bytes)) if hello_name(bytes) is Some => hello_name(bytes),
            _ => messages_name(messages.drop_first()),
        }
    }
}

/// The hostname that the entries of a server name extension give.
fn find_entry(entries: &Vec<(u8, Vec<u8>)>) -> (r: Option<String>)
    ensures
        text::optional_view(r) == entries_name(entries_view(entries@)),
{
    let ghost all = entries_view(entries@);
    let mut i: usize = 0;
    assert(all.skip(0) == all);
    while i < entries.len()
        invariant
            i <= entries@.len(),
            all == entries_view(entries@),
            entries_name(all.skip(i as int)) == entries_name(all),
        decreases entries@.len() - i,
    {
        let value = &entries[i].1;
        assert(all.skip(i as int).first() == (entries@[i as int].0, value@));
        assert(all.skip(i as int).drop_first() == all.skip(i + 1));
        if entries[i].0 == 0 && value.len() > 0 && value.len() <= MAX_SERVER_NAME {
            if let Ok(name) = String::from_utf8(slice_to_vec(value.as_slice())) {
                return Some(name);
            }
        }
        i += 1;
    }
    None
}

/// The hostname that the extensions of a ClientHello give.
pub fn extension_hostname(extensions: &Vec<HelloExtension>) -> (r: Option<String>)
    ensures
        text::optional_view(r) == extensions_name(extensions_view(extensions@)),
{
    let ghost all = extensions_view(extensions@);
    let mut i: usize = 0;
    assert(all.skip(0) == all);
    while i < extensions.len()
        invariant
            i <= extensions@.len(),
            all == extensions_view(extensions@),
            extensions_name(all.skip(i as int)) == extensions_name(all),
        decreases extensions@.len() - i,
    {
        assert(all.skip(i as int).first() == extensions@[i as int]@);
        assert(all.skip(i as int).drop_first() == all.skip(i + 1));
        if let HelloExtension::Sni(entries) = &extensions[i] {
            if let Some(name) = find_entry(entries) {
                return Some(name);
            }
        }
        i += 1;
    }
    None
}

/// The hostname that the messages of a record give.
pub fn extract_sni(messages: &Vec<RecordMessage>) -> (r: Option<String>)
    ensures
        text::optional_view(r) == messages_name(messages_view(messages@)),
{
    let ghost all = messages_view(messages@);
    let mut i: usize = 0;
    assert(all.skip(0) == all);
    while i < messages.len()
        invariant
            i <= messages@.len(),
            all == messages_view(messages@),
            messages_name(all.skip(i as int)) == messages_name(all),
        decreases messages@.len() - i,
    {
        assert(all.skip(i as int).first() == messages@[i as int]@);
        assert(all.skip(i as int).drop_first() == all.skip(i + 1));
        match &messages[i] {
            RecordMessage::ClientHello(None) => {
                return None;
            },
            RecordMessage::ClientHello(Some(bytes)) => {
                if let Some(extensions) = outside::tls::parse_extensions(bytes.as_slice()) {
                    if let Some(name) = extension_hostname(&extensions) {
                        return Some(name);
                    }
                }
            },
            RecordMessage::Other => {},
        }
        i += 1;
    }
    None
}

/// What was read from the client, and the hostname that it asked for.
pub struct ClientHelloCapture {
    pub hostname: Option<String>,
    pub buffer: Vec<u8>,
}

/// What to do after the header of the first record.
#[derive(Clone, Copy, Debug, PartialEq, Eq, Structural)]
pub enum HeaderStep {
    /// The connection does not begin with a handshake: nothing more is read.
    NotHandshake,
    /// So many bytes of payload follow.
    ReadPayload(u16),
}

/// Why the first record is refused.
#[derive(Clone, Copy, Debug, PartialEq, Eq, Structural)]
pub enum HelloError {
    TooLarge,
    Unparsable,
}

impl HelloError {
    /// The refusal in words.
    pub open spec fn text(self) -> Seq<char> {
        match self {
            HelloError::TooLarge => "TLS ClientHello exceeds 65536 bytes"@,
            HelloError::Unparsable => "unable to parse TLS record"@,
        }
    }

    /// Puts the refusal in words.
    pub fn message(&self) -> (r: String)
        ensures
            r@ == self.text(),
    {
        match self {
            HelloError::TooLarge => String::from_str("TLS ClientHello exceeds 65536 bytes"),
            HelloError::Unparsable => String::from_str("unable to parse TLS record"),
        }
    }
}

/// What the header of the first record calls for.
pub open spec fn header_step(header: Seq<u8>) -> HeaderStep {
    if header[0] != HANDSHAKE_RECORD {
        HeaderStep::NotHandshake
    } else {
        HeaderStep::ReadPayload((header[3] * 256 + header[4]) as u16)
    }
}

/// What the bytes of the first record come to.
pub open spec fn record_outcome(record: Seq<u8>) -> Result<Option<Seq<char>>, HelloError> {
    if record.len() > MAX_CLIENT_HELLO_SIZE {
        Err(HelloError::TooLarge)
    } else {
        match outside::tls::parsed_record(record) {
            None => Err(HelloError::Unparsable),
            Some(messages) => Ok(messages_name(messages)),
        }
    }
}

/// Reads the header of the first record.
pub fn inspect_header(header: &[u8; 5]) -> (r: HeaderStep)
    ensures
        r == header_step(header@),
{
    if header[0] != HANDSHAKE_RECORD {
        HeaderStep::NotHandshake
    } else {
        HeaderStep::ReadPayload(header[3] as u16 * 256 + header[4] as u16)
    }
}

/// The capture of a connection that does not begin with a handshake: its header, and no hostname.
pub fn capture_header(header: &[u8; 5]) -> (r: ClientHelloCapture)
    ensures
        r.hostname is None,
        r.buffer@ == header@,
{
    ClientHelloCapture { hostname: None, buffer: slice_to_vec(header.as_slice()) }
}

/// The capture of a connection that begins with a handshake record.
pub fn capture_record(header: &[u8; 5], payload: &Vec<u8>) -> (r: Result<
    ClientHelloCapture,
    HelloError,
>)
    ensures
        match r {
            Ok(capture) => {
                &&& record_outcome(header@ + payload@) == Ok::<_, HelloError>(
                    text::optional_view(capture.hostname),
                )
                &&& capture.buffer@ == header@ + payload@
            },
            Err(e) => record_outcome(header@ + payload@) == Err::<Option<Seq<char>>, _>(e),
        },
{
    if payload.len() > MAX_CLIENT_HELLO_SIZE - RECORD_HEADER_SIZE {
        return Err(HelloError::TooLarge);
    }
    let mut buffer: Vec<u8> = slice_to_vec(header.as_slice());
    buffer.extend_from_slice(payload.as_slice());
    assert(buffer@ == header@ + payload@);
    match outside::tls::parse_record(buffer.as_slice()) {
        None => Err(HelloError::Unparsable),
        Some(messages) => {
            let hostname = extract_sni(&messages);
            Ok(ClientHelloCapture { hostname, buffer })
        },
    }
}

/// A hostname from the entries of a server name extension has 1 to 255 bytes.
proof fn lemma_entries_name_bounds(entries: Seq<(u8, Seq<u8>)>)
    ensures
        entries_name(entries) matches Some(name) ==> 0 < utf8::encode_utf8(name).len()
            <= MAX_SERVER_NAME,
    decreases entries.len(),
{
    if entries.len() > 0 {
        lemma_entries_name_bounds(entries.drop_first());
        if entry_name(entries.first()) is Some {
            utf8::decode_utf8_encode_utf8(entries.first().1);
        }
    }
}

/// A hostname from the extensions of a ClientHello has 1 to 255 bytes.
pub proof fn law_extension_name_bounds(extensions: Seq<ExtensionView>)
    ensures
        extensions_name(extensions) matches Some(name) ==> 0 < utf8::encode_utf8(name).len()
            <= MAX_SERVER_NAME,
    decreases extensions.len(),
{
    if extensions.len() > 0 {
        law_extension_name_bounds(extensions.drop_first());
        if let ExtensionView::Sni(entries) = extensions.first() {
            lemma_entries_name_bounds(entries);
        }
    }
}

/// Whatever the record holds, a hostname captured from it has 1 to 255 bytes.
pub proof fn law_server_name_bounds(messages: Seq<MessageView>)
    ensures
        messages_name(messages) matches Some(name) ==> 0 < utf8::encode_utf8(name).len()
            <= MAX_SERVER_NAME,
    decreases messages.len(),
{
    if messages.len() > 0 {
        law_server_name_bounds(messages.drop_first());
        if let MessageView::ClientHello(Some(bytes)) = messages.first() {
            if outside::tls::parsed_extensions(bytes) is Some {
                law_extension_name_bounds(outside::tls::parsed_extensions(bytes)->0);
            }
        }
    }
}

/// A record without a ClientHello names no server.
pub proof fn law_no_hello_no_name(messages: Seq<MessageView>)
    requires
        forall|i: int| 0 <= i < messages.len() ==> #[trigger] messages[i] is Other,
    ensures
        messages_name(messages) is None,
    decreases messages.len(),
{
    if messages.len() > 0 {
        assert(messages[0] is Other);
        assert forall|i: int| 0 <= i < messages.drop_first().len() implies #[trigger] messages.drop_first()[i] is Other by {
            assert(messages[i + 1] is Other);
        }
        law_no_hello_no_name(messages.drop_first());
    }
}

/// Entries that name no server are passed over.
proof fn lemma_entries_passed_over(skipped: Seq<(u8, Seq<u8>)>, rest: Seq<(u8, Seq<u8>)>)
    requires
        entries_name(skipped) is None,
    ensures
        entries_name(skipped + rest) == entries_name(rest),
    decreases skipped.len(),
{
    if skipped.len() > 0 {
        lemma_entries_passed_over(skipped.drop_first(), rest);
        assert((skipped + rest).drop_first() == skipped.drop_first() + rest);
        assert((skipped + rest).first() == skipped.first());
    } else {
        assert(skipped + rest == rest);
    }
}

/// Extensions that name no server are passed over.
proof fn lemma_extensions_passed_over(skipped: Seq<ExtensionView>, rest: Seq<ExtensionView>)
    requires
        extensions_name(skipped) is None,
    ensures
        extensions_name(skipped + rest) == extensions_name(rest),
    decreases skipped.len(),
{
    if skipped.len() > 0 {
        lemma_extensions_passed_over(skipped.drop_first(), rest);
        assert((skipped + rest).drop_first() == skipped.drop_first() + rest);
        assert((skipped + rest).first() == skipped.first());
    } else {
        assert(skipped + rest == rest);
    }
}

/// A server name of 1 to 255 bytes is the one captured wherever it stands, if nothing before it names
/// a server.
pub proof fn law_first_name_captured(
    before: Seq<ExtensionView>,
    skipped: Seq<(u8, Seq<u8>)>,
    name: Seq<char>,
    more: Seq<(u8, Seq<u8>)>,
    rest: Seq<ExtensionView>,
)
    requires
        extensions_name(before) is None,
        entries_name(skipped) is None,
        0 < utf8::encode_utf8(name).len() <= MAX_SERVER_NAME,
    ensures
        extensions_name(
            before + (seq![
                ExtensionView::Sni(skipped + (seq![(0u8, utf8::encode_utf8(name))] + more)),
            ] + rest),
        ) == Some(name),
{
    utf8::encode_utf8_valid_utf8(name);
    utf8::encode_utf8_decode_utf8(name);
    let tail = seq![(0u8, utf8::encode_utf8(name))] + more;
    assert(tail.first() == (0u8, utf8::encode_utf8(name)));
    lemma_entries_passed_over(skipped, tail);
    let extensions = seq![ExtensionView::Sni(skipped + tail)] + rest;
    assert(extensions.first() == ExtensionView::Sni(skipped + tail));
    lemma_extensions_passed_over(before, extensions);
}

/// Whether an entry of a server name extension can be used: a host name of 1 to 255 bytes, in UTF-8.
pub open spec fn is_usable(entry: (u8, Seq<u8>)) -> bool {
    entry.0 == 0 && 1 <= entry.1.len() <= 255 && utf8::valid_utf8(entry.1)
}

/// Whether an extension names no server.
pub open spec fn is_unnamed(extension: ExtensionView) -> bool {
    match extension {
        ExtensionView::Sni(entries) => forall|i: int|
            0 <= i < entries.len() ==> !is_usable(#[trigger] entries[i]),
        ExtensionView::Other => true,
    }
}

/// Whether the search for a name goes on behind a message: it is no ClientHello, or one with
/// extensions that cannot be read or name no server.
pub open spec fn is_passed_over(message: MessageView) -> bool {
    match message {
        MessageView::ClientHello(None) => false,
        MessageView::ClientHello(Some(bytes)) => match outside::tls::parsed_extensions(bytes) {
            Some(extensions) => forall|i: int|
                0 <= i < extensions.len() ==> is_unnamed(#[trigger] extensions[i]),
            None => true,
        },
        MessageView::Other => true,
    }
}

/// Unusable entries give no name.
proof fn lemma_unusable_entries(entries: Seq<(u8, Seq<u8>)>)
    requires
        forall|i: int| 0 <= i < entries.len() ==> !is_usable(#[trigger] entries[i]),
    ensures
        entries_name(entries) is None,
    decreases entries.len(),
{
    if entries.len() > 0 {
        let rest = entries.drop_first();
        assert(!is_usable(entries[0]));
        assert forall|i: int| 0 <= i < rest.len() implies !is_usable(#[trigger] rest[i]) by {
            assert(rest[i] == entries[i + 1]);
        }
        lemma_unusable_entries(rest);
    }
}

/// Extensions that name no server give no name.
proof fn lemma_unnamed_extensions(extensions: Seq<ExtensionView>)
    requires
        forall|i: int| 0 <= i < extensions.len() ==> is_unnamed(#[trigger] extensions[i]),
    ensures
        extensions_name(extensions) is None,
    decreases extensions.len(),
{
    if extensions.len() > 0 {
        let rest = extensions.drop_first();
        assert(is_unnamed(extensions[0]));
        if let ExtensionView::Sni(entries) = extensions[0] {
            lemma_unusable_entries(entries);
        }
        assert forall|i: int| 0 <= i < rest.len() implies is_unnamed(#[trigger] rest[i]) by {
            assert(rest[i] == extensions[i + 1]);
        }
        lemma_unnamed_extensions(rest);
    }
}

/// Messages that are passed over change nothing.
proof fn lemma_messages_passed_over(skipped: Seq<MessageView>, rest: Seq<MessageView>)
    requires
        forall|i: int| 0 <= i < skipped.len() ==> is_passed_over(#[trigger] skipped[i]),
    ensures
        messages_name(skipped + rest) == messages_name(rest),
    decreases skipped.len(),
{
    if skipped.len() > 0 {
        let tail = skipped.drop_first();
        assert(is_passed_over(skipped[0]));
        assert forall|i: int| 0 <= i < tail.len() implies is_passed_over(#[trigger] tail[i]) by {
            assert(tail[i] == skipped[i + 1]);
        }
        lemma_messages_passed_over(tail, rest);
        assert((skipped + rest).drop_first() == tail + rest);
        assert((skipped + rest).first() == skipped[0]);
        if let MessageView::ClientHello(Some(bytes)) = skipped[0] {
            if outside::tls::parsed_extensions(bytes) is Some {
                lemma_unnamed_extensions(outside::tls::parsed_extensions(bytes)->0);
            }
        }
    } else {
        assert(skipped + rest == rest);
    }
}

/// The first usable entry of the first extension that has one gives the name, however many extensions
/// and entries stand before and behind it.
pub proof fn law_extensions_searched(
    before: Seq<ExtensionView>,
    skipped: Seq<(u8, Seq<u8>)>,
    name: Seq<u8>,
    more: Seq<(u8, Seq<u8>)>,
    rest: Seq<ExtensionView>,
)
    requires
        forall|i: int| 0 <= i < before.len() ==> is_unnamed(#[trigger] before[i]),
        forall|i: int| 0 <= i < skipped.len() ==> !is_usable(#[trigger] skipped[i]),
        is_usable((0u8, name)),
    ensures
        extensions_name(
            before + (seq![ExtensionView::Sni(skipped + (seq![(0u8, name)] + more))] + rest),
        ) == Some(utf8::decode_utf8(name)),
        extensions_name(before) is None,
{
    lemma_unusable_entries(skipped);
    lemma_unnamed_extensions(before);
    let tail = seq![(0u8, name)] + more;
    assert(tail.first() == (0u8, name));
    lemma_entries_passed_over(skipped, tail);
    let extensions = seq![ExtensionView::Sni(skipped + tail)] + rest;
    assert(extensions.first() == ExtensionView::Sni(skipped + tail));
    lemma_extensions_passed_over(before, extensions);
}

/// The name of the first ClientHello that has one is extracted, whatever messages stand before and
/// behind it, and wherever among its extensions the name stands.
pub proof fn law_name_extracted(
    messages: Seq<MessageView>,
    bytes: Seq<u8>,
    later: Seq<MessageView>,
    before: Seq<ExtensionView>,
    skipped: Seq<(u8, Seq<u8>)>,
    name: Seq<u8>,
    more: Seq<(u8, Seq<u8>)>,
    rest: Seq<ExtensionView>,
)
    requires
        forall|i: int| 0 <= i < messages.len() ==> is_passed_over(#[trigger] messages[i]),
        outside::tls::parsed_extensions(bytes) == Some(
            before + (seq![ExtensionView::Sni(skipped + (seq![(0u8, name)] + more))] + rest),
        ),
        forall|i: int| 0 <= i < before.len() ==> is_unnamed(#[trigger] before[i]),
        forall|i: int| 0 <= i < skipped.len() ==> !is_usable(#[trigger] skipped[i]),
        is_usable((0u8, name)),
    ensures
        messages_name(messages + (seq![MessageView::ClientHello(Some(bytes))] + later)) == Some(
            utf8::decode_utf8(name),
        ),
{
    law_extensions_searched(before, skipped, name, more, rest);
    let tail = seq![MessageView::ClientHello(Some(bytes))] + later;
    assert(tail.first() == MessageView::ClientHello(Some(bytes)));
    lemma_messages_passed_over(messages, tail);
}

/// No name is extracted where every message is passed over, nor behind a ClientHello without
/// extensions.
pub proof fn law_nothing_extracted(messages: Seq<MessageView>, later: Seq<MessageView>)
    requires
        forall|i: int| 0 <= i < messages.len() ==> is_passed_over(#[trigger] messages[i]),
    ensures
        messages_name(messages) is None,
        messages_name(messages + (seq![MessageView::ClientHello(None)] + later)) is None,
{
    let tail = seq![MessageView::ClientHello(None)] + later;
    assert(tail.first() == MessageView::ClientHello(None));
    lemma_messages_passed_over(messages, tail);
    lemma_messages_passed_over(messages, Seq::empty());
    assert(messages + Seq::<MessageView>::empty() == messages);
}

/// A record of at most 65536 bytes that can be read gives the name of its messages; a longer one, and
/// one that cannot be read, are refused.
pub proof fn law_record_judged(record: Seq<u8>, messages: Seq<MessageView>)
    ensures
        record.len() > 65536 ==> record_outcome(record) == Err::<Option<Seq<char>>, HelloError>(
            HelloError::TooLarge,
        ),
        record.len() <= 65536 && outside::tls::parsed_record(record) is None ==> record_outcome(
            record,
        ) == Err::<Option<Seq<char>>, HelloError>(HelloError::Unparsable),
        record.len() <= 65536 && outside::tls::parsed_record(record) == Some(messages)
            ==> record_outcome(record) == Ok::<Option<Seq<char>>, HelloError>(
            messages_name(messages),
        ),
{
}

/// The header of a handshake record is followed by as many bytes as its last two say, the first worth
/// more; any other header by none.
pub proof fn law_header_read(header: Seq<u8>, size: u16)
    requires
        header.len() == 5,
    ensures
        header[0] != 22 ==> header_step(header) == HeaderStep::NotHandshake,
        header[0] == 22 && header[3] == size / 256 && header[4] == size % 256 ==> header_step(header)
            == HeaderStep::ReadPayload(size),
{
}

/// Nothing is left out where messages, extensions and entries are taken as mathematical values.
pub proof fn law_views_complete(
    messages: Seq<RecordMessage>,
    extensions: Seq<HelloExtension>,
    entries: Seq<(u8, Vec<u8>)>,
)
    ensures
        messages_view(messages).len() == messages.len(),
        forall|i: int|
            0 <= i < messages.len() ==> #[trigger] messages_view(messages)[i] == messages[i]@,
        extensions_view(extensions).len() == extensions.len(),
        forall|i: int|
            0 <= i < extensions.len() ==> #[trigger] extensions_view(extensions)[i]
                == extensions[i]@,
        entries_view(entries).len() == entries.len(),
        forall|i: int|
            0 <= i < entries.len() ==> #[trigger] entries_view(entries)[i] == (
                entries[i].0,
                entries[i].1@,
            ),
{
}

}
