//! Calls into `tls_parser`.

use crate::hello;
use crate::hello::{HelloExtension, RecordMessage};
use vstd::prelude::*;

verus! {

/// What `tls_parser::parse_tls_plaintext` reads from the bytes of a record: its messages, in order,
/// each ClientHello with the bytes of its extensions; `None` where it returns an error.
pub uninterp spec fn parsed_record(record: Seq<u8>) -> Option<Seq<hello::MessageView>>;

/// What `tls_parser::parse_tls_client_hello_extensions` reads from the bytes of the extensions: the
/// extensions, in order, each server name extension with its entries; `None` where it returns an
/// error.
pub uninterp spec fn parsed_extensions(bytes: Seq<u8>) -> Option<Seq<hello::ExtensionView>>;

/// `tls_parser::parse_tls_plaintext` reads one record. Its result is a function of the bytes alone.
/// Here each ClientHello is copied out with its `ext` field; messages of another kind are told apart
/// no further, and what follows the record is dropped.
#[verifier::external_body]
pub(crate) fn parse_record(record: &[u8]) -> (r: Option<Vec<RecordMessage>>)
    ensures
        match r {
            Some(messages) => parsed_record(record@) == Some(hello::messages_view(messages@)),
            None => parsed_record(record@) is None,
        },
{
    let (_, plaintext) = tls_parser::parse_tls_plaintext(record).ok()?;
    let messages = plaintext.msg.iter().map(
        |message|
            match message {
                tls_parser::TlsMessage::Handshake(
                    tls_parser::TlsMessageHandshake::ClientHello(hello),
                ) => RecordMessage::ClientHello(hello.ext.map(|bytes| bytes.to_vec())),
                _ => RecordMessage::Other,
            },
    );
    Some(messages.collect())
}

/// `tls_parser::parse_tls_client_hello_extensions` reads the extensions of a ClientHello. Its result
/// is a function of the bytes alone. Here the entries of each server name extension are copied out,
/// each with the number of its type; other extensions are told apart no further.
#[verifier::external_body]
pub(crate) fn parse_extensions(bytes: &[u8]) -> (r: Option<Vec<HelloExtension>>)
    ensures
        match r {
            Some(extensions) => parsed_extensions(bytes@) == Some(
                hello::extensions_view(extensions@),
            ),
            None => parsed_extensions(bytes@) is None,
        },
{
    let (_, extensions) = tls_parser::parse_tls_client_hello_extensions(bytes).ok()?;
    let extensions = extensions.iter().map(
        |extension|
            match extension {
                tls_parser::TlsExtension::SNI(entries) => HelloExtension::Sni(
                    entries.iter().map(|(kind, name)| (kind.0, name.to_vec())).collect(),
                ),
                _ => HelloExtension::Other,
            },
    );
    Some(extensions.collect())
}

}
