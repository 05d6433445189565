//! Calls into the crates that read and make keys and certificates.

use crate::certificate;
use crate::certificate::{LeafTemplate, PemItem};
use der::asn1::{Any, GeneralizedTime, Ia5String, SetOfVec, Utf8StringRef};
use der::{Decode, Encode};
use p256::ecdsa::{DerSignature, SigningKey};
use p256::pkcs8::{DecodePrivateKey, EncodePrivateKey};
use sec1::DecodeEcPrivateKey;
use spki::{EncodePublicKey, SubjectPublicKeyInfoOwned};
use std::time::Duration;
use vstd::prelude::*;
use x509_cert::attr::AttributeTypeAndValue;
use x509_cert::builder::{Builder, CertificateBuilder, Profile};
use x509_cert::ext::pkix::name::GeneralName;
use x509_cert::ext::pkix::SubjectAltName;
use x509_cert::name::{RdnSequence, RelativeDistinguishedName};
use x509_cert::serial_number::SerialNumber;
use x509_cert::time::{Time, Validity};

verus! {

/// The first certificate that `rustls_pemfile::certs` finds in a PEM file.
pub uninterp spec fn pem_certificate(pem: Seq<u8>) -> certificate::PemView;

/// The private key that `rustls_pemfile::private_key` finds in a PEM file.
pub uninterp spec fn pem_private_key(pem: Seq<u8>) -> certificate::PemView;

/// The subject of the certificate that `x509_cert::Certificate::from_der` reads, in DER; `None` where
/// it returns an error.
pub uninterp spec fn certificate_subject(der: Seq<u8>) -> Option<Seq<u8>>;

/// The scalar of the key that `p256::ecdsa::SigningKey::from_pkcs8_der` reads; `None` where it
/// returns an error.
pub uninterp spec fn pkcs8_scalar(der: Seq<u8>) -> Option<Seq<u8>>;

/// The scalar of the key that `p256::ecdsa::SigningKey::from_sec1_der` reads; `None` where it returns
/// an error.
pub uninterp spec fn sec1_scalar(der: Seq<u8>) -> Option<Seq<u8>>;

/// The public key of a scalar as `to_public_key_der` writes it; `None` where the scalar is no key.
pub uninterp spec fn public_key_info(scalar: Seq<u8>) -> Option<Seq<u8>>;

/// The private key of a scalar as `to_pkcs8_der` writes it; `None` where the scalar is no key.
pub uninterp spec fn private_key_info(scalar: Seq<u8>) -> Option<Seq<u8>>;

/// The certificate that `x509_cert::builder::CertificateBuilder` makes of a template and signs with
/// the key of a scalar, in DER; `None` where it returns an error.
pub uninterp spec fn signed_leaf(
    template: certificate::TemplateView,
    signer: Seq<u8>,
) -> Option<Seq<u8>>;

/// `rustls_pemfile::certs` walks the sections of a PEM file and yields the certificates among them;
/// the first item counts. What it finds is a function of the bytes alone.
#[verifier::external_body]
pub(crate) fn first_certificate(pem: &[u8]) -> (r: PemItem)
    ensures
        r@ == pem_certificate(pem@),
{
    let mut reader = pem;
    let first = rustls_pemfile::certs(&mut reader).next();
    match first {
        None => PemItem::Missing,
        Some(Err(_)) => PemItem::Malformed,
        Some(Ok(der)) => PemItem::Der(der.to_vec()),
    }
}

/// `rustls_pemfile::private_key` returns the first private key of a PEM file, of any format. What it
/// finds is a function of the bytes alone.
#[verifier::external_body]
pub(crate) fn first_private_key(pem: &[u8]) -> (r: PemItem)
    ensures
        r@ == pem_private_key(pem@),
{
    let mut reader = pem;
    match rustls_pemfile::private_key(&mut reader) {
        Err(_) => PemItem::Malformed,
        Ok(None) => PemItem::Missing,
        Ok(Some(key)) => PemItem::Der(key.secret_der().to_vec()),
    }
}

/// `x509_cert::Certificate::from_der` reads a certificate; its `subject` is handed out in DER. The
/// result is a function of the bytes alone.
#[verifier::external_body]
pub(crate) fn read_subject(der: &[u8]) -> (r: Option<Vec<u8>>)
    ensures
        certificate::bytes_view(r) == certificate_subject(der@),
{
    x509_cert::Certificate::from_der(der).ok()?.tbs_certificate.subject.to_der().ok()
}

/// `SigningKey::from_pkcs8_der` reads a P-256 key in PKCS #8; the key is handed out as its scalar. The
/// result is a function of the bytes alone.
#[verifier::external_body]
pub(crate) fn read_pkcs8(der: &[u8]) -> (r: Option<Vec<u8>>)
    ensures
        certificate::bytes_view(r) == pkcs8_scalar(der@),
{
    Some(SigningKey::from_pkcs8_der(der).ok()?.to_bytes().to_vec())
}

/// `SigningKey::from_sec1_der` reads a P-256 key in the format of SEC 1; the key is handed out as its
/// scalar. The result is a function of the bytes alone.
#[verifier::external_body]
pub(crate) fn read_sec1(der: &[u8]) -> (r: Option<Vec<u8>>)
    ensures
        certificate::bytes_view(r) == sec1_scalar(der@),
{
    Some(SigningKey::from_sec1_der(der).ok()?.to_bytes().to_vec())
}

/// `SigningKey::random` makes a new key from the thread's random numbers; it is handed out as its
/// scalar of thirty-two bytes. The scalar is that of a key, so it can be read back, and both halves of
/// the key can be written.
#[verifier::external_body]
pub(crate) fn random_scalar() -> (r: Vec<u8>)
    ensures
        r@.len() == 32,
        public_key_info(r@) is Some,
        private_key_info(r@) is Some,
{
    SigningKey::random(&mut rand::thread_rng()).to_bytes().to_vec()
}

/// `rand::RngCore::fill_bytes` fills sixteen bytes from the thread's random numbers.
#[verifier::external_body]
pub(crate) fn random_serial() -> (r: [u8; 16]) {
    let mut bytes = [0u8; 16];
    rand::RngCore::fill_bytes(&mut rand::thread_rng(), &mut bytes);
    bytes
}

/// `x509_cert::time::Validity::from_now` is a period that starts now and lasts the given time; it is
/// handed out as seconds since 1970. There is none where the clock stands outside the years that a
/// certificate can name.
/// Which second it starts in is up to the clock and left unsaid; the bound keeps the sum within what
/// the system's time can hold.
#[verifier::external_body]
pub(crate) fn validity_from_now(seconds: u64) -> (r: Option<(u64, u64)>)
    requires
        seconds <= 0xffff_ffff,
    ensures
        r matches Some((from, to)) ==> to == from + seconds,
{
    let validity = Validity::from_now(Duration::from_secs(seconds)).ok()?;
    Some(
        (
            validity.not_before.to_unix_duration().as_secs(),
            validity.not_after.to_unix_duration().as_secs(),
        ),
    )
}

/// `to_public_key_der` writes the public key of a signing key in DER. The result is a function of the
/// scalar alone.
#[verifier::external_body]
pub(crate) fn write_public_key(scalar: &[u8]) -> (r: Option<Vec<u8>>)
    ensures
        certificate::bytes_view(r) == public_key_info(scalar@),
{
    let key = SigningKey::from_slice(scalar).ok()?;
    Some(key.verifying_key().to_public_key_der().ok()?.as_bytes().to_vec())
}

/// `to_pkcs8_der` writes a signing key in PKCS #8. The result is a function of the scalar alone.
#[verifier::external_body]
pub(crate) fn write_private_key(scalar: &[u8]) -> (r: Option<Vec<u8>>)
    ensures
        certificate::bytes_view(r) == private_key_info(scalar@),
{
    Some(SigningKey::from_slice(scalar).ok()?.to_pkcs8_der().ok()?.as_bytes().to_vec())
}

/// `RdnSequence` with one attribute, the common name as a UTF-8 string, written in DER by `to_der`,
/// which refuses what takes more bytes than `der::Length` can count.
#[verifier::external_body]
pub(crate) fn write_common_name(s: &str) -> (r: Option<Vec<u8>>)
    ensures
        certificate::bytes_view(r) == certificate::subject_of(s@),
{
    let value = Any::from(Utf8StringRef::new(s).ok()?);
    let attribute = AttributeTypeAndValue { oid: const_oid::db::rfc4519::CN, value };
    let names = SetOfVec::try_from(vec![attribute]).ok()?;
    RdnSequence(vec![RelativeDistinguishedName::from(names)]).to_der().ok()
}

/// `SubjectAltName` with one DNS name, written in DER by `to_der`, which refuses what takes more bytes
/// than `der::Length` can count. `Ia5String::new` refuses a text that is not ASCII.
#[verifier::external_body]
pub(crate) fn write_dns_alt_name(s: &str) -> (r: Option<Vec<u8>>)
    ensures
        certificate::bytes_view(r) == certificate::alt_name_of(s@),
{
    SubjectAltName(vec![GeneralName::DnsName(Ia5String::new(s).ok()?)]).to_der().ok()
}

/// The error of `x509_cert::builder`.
#[verifier::external_type_specification]
#[verifier::external_body]
pub struct ExBuilderError(x509_cert::builder::Error);

/// `CertificateBuilder` makes a leaf certificate of the template, adds the alternative name and signs
/// it. The signature uses no random numbers, so the result is a function of the template and the
/// signer's scalar alone.
#[verifier::external_body]
pub(crate) fn sign_leaf(leaf: &LeafTemplate, signer: &[u8]) -> (r: Result<
    Vec<u8>,
    x509_cert::builder::Error,
>)
    ensures
        match r {
            Ok(der) => signed_leaf(leaf@, signer@) == Some(der@),
            Err(_) => signed_leaf(leaf@, signer@) is None,
        },
{
    let key = SigningKey::from_slice(signer)?;
    let time = |s| GeneralizedTime::from_unix_duration(Duration::from_secs(s)).map(Time::from);
    let profile = Profile::Leaf {
        issuer: RdnSequence::from_der(&leaf.issuer)?,
        enable_key_agreement: leaf.key_agreement,
        enable_key_encipherment: leaf.key_encipherment,
        include_subject_key_identifier: leaf.subject_key_id,
    };
    let validity = Validity { not_before: time(leaf.not_before)?, not_after: time(leaf.not_after)? };
    let subject = RdnSequence::from_der(&leaf.subject)?;
    let info = SubjectPublicKeyInfoOwned::from_der(&leaf.public_key)?;
    let mut b = CertificateBuilder::new(profile, SerialNumber::new(&leaf.serial)?, validity,
        subject, info, &key)?;
    b.add_extension(&SubjectAltName::from_der(&leaf.alt_name)?)?;
    Ok(b.build::<DerSignature>()?.to_der()?)
}

}
