//! Certificates for intercepted connections, signed by the operator's authority.

use crate::outside::pki;
use vstd::prelude::*;
use vstd::slice::slice_to_vec;
use vstd::string::StringExecFns;
use vstd::utf8;

verus! {

/// How many seconds a certificate is valid.
pub const LEAF_VALIDITY_SECS: u64 = 86400;

/// How many bytes a value in DER may take.
pub const MAX_DER_SIZE: usize = 0x0fff_ffff;

/// How many certificates are kept.
pub const CERT_CACHE_CAPACITY: u64 = 1000;

/// How many seconds a certificate is kept.
pub const CERT_CACHE_TTL_SECS: u64 = 600;

/// What a PEM file holds of the wanted kind.
pub enum PemItem {
    /// Nothing.
    Missing,
    /// Something that is not PEM.
    Malformed,
    /// These bytes.
    Der(Vec<u8>),
}

/// What a PEM file holds of the wanted kind, as a mathematical value.
pub ghost enum PemView {
    Missing,
    Malformed,
    Der(Seq<u8>),
}

impl View for PemItem {
    type V = PemView;

    open spec fn view(&self) -> PemView {
        match self {
            PemItem::Missing => PemView::Missing,
            PemItem::Malformed => PemView::Malformed,
            PemItem::Der(der) => PemView::Der(der@),
        }
    }
}

/// An authority: the name in its certificate, in DER, and the scalar of its key.
pub struct Ca {
    pub subject: Vec<u8>,
    pub signer: Vec<u8>,
}

/// Why an authority cannot be used.
#[derive(Clone, Copy, Debug, PartialEq, Eq, Structural)]
pub enum CaError {
    NoCertificate,
    BadCertificate,
    BadKey,
    NoKey,
    NotX509,
    NotP256,
}

impl CaError {
    /// The refusal in words.
    pub open spec fn text(self) -> Seq<char> {
        match self {
            CaError::NoCertificate => "no certificate found"@,
            CaError::BadCertificate => "failed to parse CA cert"@,
            CaError::BadKey => "failed to parse CA key"@,
            CaError::NoKey => "no private key found"@,
            CaError::NotX509 => "failed to parse CA cert as X.509"@,
            CaError::NotP256 => "CA key must be ECDSA P-256"@,
        }
    }

    /// Puts the refusal in words.
    pub fn message(&self) -> (r: String)
        ensures
            r@ == self.text(),
    {
        match self {
            CaError::NoCertificate => String::from_str("no certificate found"),
            CaError::BadCertificate => String::from_str("failed to parse CA cert"),
            CaError::BadKey => String::from_str("failed to parse CA key"),
            CaError::NoKey => String::from_str("no private key found"),
            CaError::NotX509 => String::from_str("failed to parse CA cert as X.509"),
            CaError::NotP256 => String::from_str("CA key must be ECDSA P-256"),
        }
    }
}

/// Everything that goes into a certificate.
pub struct LeafTemplate {
    pub issuer: Vec<u8>,
    pub serial: Vec<u8>,
    /// Seconds since 1970.
    pub not_before: u64,
    /// Seconds since 1970.
    pub not_after: u64,
    pub subject: Vec<u8>,
    pub public_key: Vec<u8>,
    pub alt_name: Vec<u8>,
    pub key_agreement: bool,
    pub key_encipherment: bool,
    pub subject_key_id: bool,
}

/// Everything that goes into a certificate, as a mathematical value.
#[verifier::ext_equal]
pub ghost struct TemplateView {
    pub issuer: Seq<u8>,
    pub serial: Seq<u8>,
    pub not_before: u64,
    pub not_after: u64,
    pub subject: Seq<u8>,
    pub public_key: Seq<u8>,
    pub alt_name: Seq<u8>,
    pub key_agreement: bool,
    pub key_encipherment: bool,
    pub subject_key_id: bool,
}

impl View for LeafTemplate {
    type V = TemplateView;

    open spec fn view(&self) -> TemplateView {
        TemplateView {
            issuer: self.issuer@,
            serial: self.serial@,
            not_before: self.not_before,
            not_after: self.not_after,
            subject: self.subject@,
            public_key: self.public_key@,
            alt_name: self.alt_name@,
            key_agreement: self.key_agreement,
            key_encipherment: self.key_encipherment,
            subject_key_id: self.subject_key_id,
        }
    }
}

/// A certificate and its private key, both in DER.
pub struct LeafCert {
    pub certificate: Vec<u8>,
    pub private_key: Vec<u8>,
}

/// Why no certificate was made.
#[derive(Clone, Copy, Debug, PartialEq, Eq, Structural)]
pub enum CertError {
    PublicKey,
    Subject,
    Clock,
    AltName,
    Signing,
    PrivateKey,
}

/// Bytes as a mathematical value, if there are any.
pub open spec fn bytes_view(bytes: Option<Vec<u8>>) -> Option<Seq<u8>> {
    match bytes {
        Some(bytes) => Some(bytes@),
        None => None,
    }
}

/// The authority that the parts of two PEM files make: the first thing missing is reported, and a key
/// in PKCS #8 comes before one in the format of SEC 1.
pub open spec fn ca_of_parts(
    certificate: PemView,
    key: PemView,
    subject: Option<Seq<u8>>,
    pkcs8: Option<Seq<u8>>,
    sec1: Option<Seq<u8>>,
) -> Result<(Seq<u8>, Seq<u8>), CaError> {
    if certificate is Missing {
        Err(CaError::NoCertificate)
    } else if certificate is Malformed {
        Err(CaError::BadCertificate)
    } else if key is Malformed {
        Err(CaError::BadKey)
    } else if key is Missing {
        Err(CaError::NoKey)
    } else {
        match (subject, pkcs8, sec1) {
            (None, _, _) => Err(CaError::NotX509),
            (Some(subject), Some(signer), _) => Ok((subject, signer)),
            (Some(subject), None, Some(signer)) => Ok((subject, signer)),
            (Some(_), None, None) => Err(CaError::NotP256),
        }
    }
}

/// The authority of two PEM files.
pub open spec fn ca_outcome(cert_pem: Seq<u8>, key_pem: Seq<u8>) -> Result<
    (Seq<u8>, Seq<u8>),
    CaError,
> {
    let certificate = pki::pem_certificate(cert_pem);
    let key = pki::pem_private_key(key_pem);
    ca_of_parts(
        certificate,
        key,
        match certificate {
            PemView::Der(der) => pki::certificate_subject(der),
            _ => None,
        },
        match key {
            PemView::Der(der) => pki::pkcs8_scalar(der),
            _ => None,
        },
        match key {
            PemView::Der(der) => pki::sec1_scalar(der),
            _ => None,
        },
    )
}

/// The outcome of reading an authority, as a mathematical value.
pub open spec fn ca_view(r: Result<Ca, CaError>) -> Result<(Seq<u8>, Seq<u8>), CaError> {
    match r {
        Ok(ca) => Ok((ca.subject@, ca.signer@)),
        Err(e) => Err(e),
    }
}

/// Puts an authority together from the parts of two PEM files.
pub fn assemble_ca(
    certificate: &PemItem,
    key: &PemItem,
    subject: Option<Vec<u8>>,
    pkcs8: Option<Vec<u8>>,
    sec1: Option<Vec<u8>>,
) -> (r: Result<Ca, CaError>)
    ensures
        ca_view(r) == ca_of_parts(
            certificate@,
            key@,
            bytes_view(subject),
            bytes_view(pkcs8),
            bytes_view(sec1),
        ),
{
    match certificate {
        PemItem::Missing => {
            return Err(CaError::NoCertificate);
        },
        PemItem::Malformed => {
            return Err(CaError::BadCertificate);
        },
        PemItem::Der(_) => {},
    }
    match key {
        PemItem::Malformed => {
            return Err(CaError::BadKey);
        },
        PemItem::Missing => {
            return Err(CaError::NoKey);
        },
        PemItem::Der(_) => {},
    }
    let subject = match subject {
        None => {
            return Err(CaError::NotX509);
        },
        Some(subject) => subject,
    };
    match (pkcs8, sec1) {
        (Some(signer), _) => Ok(Ca { subject, signer }),
        (None, Some(signer)) => Ok(Ca { subject, signer }),
        (None, None) => Err(CaError::NotP256),
    }
}

/// Reads an authority from its two PEM files.
pub fn load_ca(cert_pem: &[u8], key_pem: &[u8]) -> (r: Result<Ca, CaError>)
    ensures
        ca_view(r) == ca_outcome(cert_pem@, key_pem@),
{
    let certificate = pki::first_certificate(cert_pem);
    let key = pki::first_private_key(key_pem);
    let subject = match &certificate {
        PemItem::Der(der) => pki::read_subject(der.as_slice()),
        _ => None,
    };
    let (pkcs8, sec1) = match &key {
        PemItem::Der(der) => (pki::read_pkcs8(der.as_slice()), pki::read_sec1(der.as_slice())),
        _ => (None, None),
    };
    assemble_ca(&certificate, &key, subject, pkcs8, sec1)
}

/// A length in DER, below 2^32.
#[verifier::opaque]
pub open spec fn der_length(n: nat) -> Seq<u8> {
    if n < 0x80 {
        seq![n as u8]
    } else if n < 0x100 {
        seq![0x81u8, n as u8]
    } else if n < 0x1_0000 {
        seq![0x82u8, (n / 0x100) as u8, (n % 0x100) as u8]
    } else if n < 0x100_0000 {
        seq![0x83u8, (n / 0x1_0000) as u8, (n / 0x100 % 0x100) as u8, (n % 0x100) as u8]
    } else {
        seq![
            0x84u8,
            (n / 0x100_0000) as u8,
            (n / 0x1_0000 % 0x100) as u8,
            (n / 0x100 % 0x100) as u8,
            (n % 0x100) as u8,
        ]
    }
}

/// A value in DER: its tag, its length, its contents.
pub open spec fn der_value(tag: u8, contents: Seq<u8>) -> Seq<u8> {
    seq![tag] + der_length(contents.len()) + contents
}

/// Whether all bytes of a text are ASCII.
pub open spec fn is_ascii(s: Seq<char>) -> bool {
    forall|i: int|
        0 <= i < utf8::encode_utf8(s).len() ==> #[trigger] utf8::encode_utf8(s)[i] < 0x80
}

/// A name whose only attribute is a common name (2.5.4.3), a UTF-8 string.
pub open spec fn common_name_der(s: Seq<char>) -> Seq<u8> {
    let attribute = seq![0x06u8, 3, 0x55, 4, 3] + der_value(0x0c, utf8::encode_utf8(s));
    der_value(0x30, der_value(0x31, der_value(0x30, attribute)))
}

/// Alternative names of which the only one is a DNS name.
pub open spec fn alt_name_der(s: Seq<char>) -> Seq<u8> {
    der_value(0x30, der_value(0x82, utf8::encode_utf8(s)))
}

/// The subject of the certificate for a hostname: its common name, unless it is too large.
pub open spec fn subject_of(hostname: Seq<char>) -> Option<Seq<u8>> {
    if common_name_der(hostname).len() <= MAX_DER_SIZE {
        Some(common_name_der(hostname))
    } else {
        None
    }
}

/// The alternative name of the certificate for a hostname: its DNS name, unless it is not ASCII or too
/// large.
pub open spec fn alt_name_of(hostname: Seq<char>) -> Option<Seq<u8>> {
    if is_ascii(hostname) && alt_name_der(hostname).len() <= MAX_DER_SIZE {
        Some(alt_name_der(hostname))
    } else {
        None
    }
}

/// A serial number from random bytes: the first bit is cleared, so that it is not negative.
pub open spec fn serial_of(bytes: Seq<u8>) -> Seq<u8> {
    bytes.update(0, bytes[0] % 128)
}

/// The template of the certificate for a hostname: signed in the authority's name, valid for the given
/// period, with the hostname as its subject and its only alternative name.
pub open spec fn template_outcome(
    issuer: Seq<u8>,
    serial: Seq<u8>,
    period: Option<(u64, u64)>,
    subject: Option<Seq<u8>>,
    public_key: Option<Seq<u8>>,
    alt_name: Option<Seq<u8>>,
) -> Result<TemplateView, CertError> {
    match (public_key, subject, period, alt_name) {
        (None, _, _, _) => Err(CertError::PublicKey),
        (Some(_), None, _, _) => Err(CertError::Subject),
        (Some(_), Some(_), None, _) => Err(CertError::Clock),
        (Some(_), Some(_), Some(_), None) => Err(CertError::AltName),
        (Some(public_key), Some(subject), Some((not_before, not_after)), Some(alt_name)) => Ok(
            TemplateView {
                issuer,
                serial: serial_of(serial),
                not_before,
                not_after,
                subject,
                public_key,
                alt_name,
                key_agreement: true,
                key_encipherment: true,
                subject_key_id: true,
            },
        ),
    }
}

/// The certificate and key of a template that was signed or not.
pub open spec fn leaf_outcome(
    certificate: Option<Seq<u8>>,
    private_key: Option<Seq<u8>>,
) -> Result<(Seq<u8>, Seq<u8>), CertError> {
    match (certificate, private_key) {
        (None, _) => Err(CertError::Signing),
        (Some(_), None) => Err(CertError::PrivateKey),
        (Some(certificate), Some(private_key)) => Ok((certificate, private_key)),
    }
}

/// The certificate that an authority issues for a hostname, given the random scalar of its key, the
/// random bytes of its serial number and its period.
pub open spec fn issued(
    ca: (Seq<u8>, Seq<u8>),
    hostname: Seq<char>,
    scalar: Seq<u8>,
    serial: Seq<u8>,
    period: Option<(u64, u64)>,
) -> Result<(Seq<u8>, Seq<u8>), CertError> {
    match template_outcome(
        ca.0,
        serial,
        period,
        subject_of(hostname),
        pki::public_key_info(scalar),
        alt_name_of(hostname),
    ) {
        Err(e) => Err(e),
        Ok(template) => leaf_outcome(
            pki::signed_leaf(template, ca.1),
            pki::private_key_info(scalar),
        ),
    }
}

/// The outcome of making a certificate, as a mathematical value.
pub open spec fn leaf_view(r: Result<LeafCert, CertError>) -> Result<
    (Seq<u8>, Seq<u8>),
    CertError,
> {
    match r {
        Ok(leaf) => Ok((leaf.certificate@, leaf.private_key@)),
        Err(e) => Err(e),
    }
}

/// Clears the first bit of random bytes.
pub fn positive_serial(bytes: &[u8; 16]) -> (r: Vec<u8>)
    ensures
        r@ == serial_of(bytes@),
        r@[0] < 128,
{
    let mut r: Vec<u8> = slice_to_vec(bytes.as_slice());
    let first: u8 = bytes[0] % 128;
    r.set(0, first);
    r
}

/// Fills in the template of a certificate.
pub fn leaf_template(
    issuer: &Vec<u8>,
    serial: &[u8; 16],
    period: Option<(u64, u64)>,
    subject: Option<Vec<u8>>,
    public_key: Option<Vec<u8>>,
    alt_name: Option<Vec<u8>>,
) -> (r: Result<LeafTemplate, CertError>)
    ensures
        match r {
            Ok(template) => template_outcome(
                issuer@,
                serial@,
                period,
                bytes_view(subject),
                bytes_view(public_key),
                bytes_view(alt_name),
            ) == Ok::<_, CertError>(template@),
            Err(e) => template_outcome(
                issuer@,
                serial@,
                period,
                bytes_view(subject),
                bytes_view(public_key),
                bytes_view(alt_name),
            ) == Err::<TemplateView, _>(e),
        },
{
    match (public_key, subject, period, alt_name) {
        (None, _, _, _) => Err(CertError::PublicKey),
        (Some(_), None, _, _) => Err(CertError::Subject),
        (Some(_), Some(_), None, _) => Err(CertError::Clock),
        (Some(_), Some(_), Some(_), None) => Err(CertError::AltName),
        (Some(public_key), Some(subject), Some((not_before, not_after)), Some(alt_name)) => Ok(
            LeafTemplate {
                issuer: slice_to_vec(issuer.as_slice()),
                serial: positive_serial(serial),
                not_before,
                not_after,
                subject,
                public_key,
                alt_name,
                key_agreement: true,
                key_encipherment: true,
                subject_key_id: true,
            },
        ),
    }
}

/// Issues the certificate for a hostname from the given scalar, serial bytes and period.
pub fn issue_cert(
    ca: &Ca,
    hostname: &str,
    scalar: &Vec<u8>,
    serial: &[u8; 16],
    period: Option<(u64, u64)>,
) -> (r: Result<LeafCert, CertError>)
    ensures
        leaf_view(r) == issued((ca.subject@, ca.signer@), hostname@, scalar@, serial@, period),
{
    let public_key = pki::write_public_key(scalar.as_slice());
    let subject = pki::write_common_name(hostname);
    let alt_name = pki::write_dns_alt_name(hostname);
    let template = match leaf_template(&ca.subject, serial, period, subject, public_key, alt_name) {
        Err(e) => {
            return Err(e);
        },
        Ok(template) => template,
    };
    match pki::sign_leaf(&template, ca.signer.as_slice()) {
        Err(_) => Err(CertError::Signing),
        Ok(certificate) => match pki::write_private_key(scalar.as_slice()) {
            None => Err(CertError::PrivateKey),
            Some(private_key) => Ok(LeafCert { certificate, private_key }),
        },
    }
}

/// Whether a period lasts one day; without a clock there is none.
pub open spec fn one_day(period: Option<(u64, u64)>) -> bool {
    period matches Some((from, to)) ==> to == from + LEAF_VALIDITY_SECS
}

/// Makes a certificate for a hostname, with a new key and serial number, valid for one day from now.
pub fn generate_cert(ca: &Ca, hostname: &str) -> (r: Result<LeafCert, CertError>)
    ensures
        exists|scalar: Seq<u8>, serial: Seq<u8>, period: Option<(u64, u64)>|
            {
                &&& scalar.len() == 32
                &&& pki::public_key_info(scalar) is Some
                &&& pki::private_key_info(scalar) is Some
                &&& serial.len() == 16
                &&& one_day(period)
                &&& leaf_view(r) == #[trigger] issued(
                    (ca.subject@, ca.signer@),
                    hostname@,
                    scalar,
                    serial,
                    period,
                )
            },
        !is_ascii(hostname@) ==> r is Err,
        r matches Err(e) ==> match e {
            CertError::PublicKey => false,
            CertError::PrivateKey => false,
            CertError::Subject => subject_of(hostname@) is None,
            CertError::AltName => subject_of(hostname@) is Some && alt_name_of(hostname@) is None,
            CertError::Clock => subject_of(hostname@) is Some,
            CertError::Signing => subject_of(hostname@) is Some && alt_name_of(hostname@) is Some,
        },
{
    let scalar = pki::random_scalar();
    let serial = pki::random_serial();
    let period = pki::validity_from_now(LEAF_VALIDITY_SECS);
    issue_cert(ca, hostname, &scalar, &serial, period)
}

/// Every certificate names the authority as its issuer and has a serial number that is not negative.
pub proof fn law_template_names_issuer(
    issuer: Seq<u8>,
    serial: Seq<u8>,
    period: Option<(u64, u64)>,
    subject: Option<Seq<u8>>,
    public_key: Option<Seq<u8>>,
    alt_name: Option<Seq<u8>>,
)
    requires
        serial.len() == 16,
    ensures
        template_outcome(issuer, serial, period, subject, public_key, alt_name) matches Ok(
            template,
        ) ==> {
            &&& template.issuer == issuer
            &&& template.serial.len() == 16
            &&& template.serial[0] < 128
            &&& template.serial.skip(1) == serial.skip(1)
        },
{
    assert(serial_of(serial).skip(1) == serial.skip(1));
}

/// A certificate is made out to exactly its hostname, as its common name and as its only DNS name, and
/// in the authority's name. A hostname that is not ASCII gets none.
pub proof fn law_made_out_to_hostname(
    ca: (Seq<u8>, Seq<u8>),
    hostname: Seq<char>,
    scalar: Seq<u8>,
    serial: Seq<u8>,
    period: Option<(u64, u64)>,
)
    ensures
        !is_ascii(hostname) ==> issued(ca, hostname, scalar, serial, period) is Err,
        issued(ca, hostname, scalar, serial, period) matches Ok((certificate, private_key)) ==> {
            &&& period is Some
            &&& pki::private_key_info(scalar) == Some(private_key)
            &&& pki::public_key_info(scalar) is Some
            &&& pki::signed_leaf(
                (TemplateView {
                    issuer: ca.0,
                    serial: serial_of(serial),
                    not_before: (period->0).0,
                    not_after: (period->0).1,
                    subject: common_name_der(hostname),
                    public_key: pki::public_key_info(scalar)->0,
                    alt_name: alt_name_der(hostname),
                    key_agreement: true,
                    key_encipherment: true,
                    subject_key_id: true,
                }),
                ca.1,
            ) == Some(certificate)
        },
{
}

/// Every ASCII hostname that a ClientHello can carry fits a certificate.
pub proof fn law_server_names_fit(hostname: Seq<char>)
    requires
        utf8::encode_utf8(hostname).len() <= 255,
        is_ascii(hostname),
    ensures
        subject_of(hostname) == Some(common_name_der(hostname)),
        alt_name_of(hostname) == Some(alt_name_der(hostname)),
{
    reveal(der_length);
}

/// An authority is read from the first certificate and the first key: what is missing or broken is
/// reported in this order, and a key in PKCS #8 comes before one in the format of SEC 1.
pub proof fn law_authority_read(cert_pem: Seq<u8>, key_pem: Seq<u8>, c: Seq<u8>, k: Seq<u8>)
    ensures
        ({
            let r = ca_outcome(cert_pem, key_pem);
            let certificate = pki::pem_certificate(cert_pem);
            let key = pki::pem_private_key(key_pem);
            let subject = pki::certificate_subject(c);
            &&& certificate is Missing ==> r == Err::<(Seq<u8>, Seq<u8>), _>(CaError::NoCertificate)
            &&& certificate is Malformed ==> r == Err::<(Seq<u8>, Seq<u8>), _>(
                CaError::BadCertificate,
            )
            &&& certificate is Der && key is Malformed ==> r == Err::<(Seq<u8>, Seq<u8>), _>(
                CaError::BadKey,
            )
            &&& certificate is Der && key is Missing ==> r == Err::<(Seq<u8>, Seq<u8>), _>(
                CaError::NoKey,
            )
            &&& certificate == PemView::Der(c) && key == PemView::Der(k) ==> {
                &&& subject is None ==> r == Err::<(Seq<u8>, Seq<u8>), _>(CaError::NotX509)
                &&& subject is Some && pki::pkcs8_scalar(k) is Some ==> r == Ok::<_, CaError>(
                    (subject->0, pki::pkcs8_scalar(k)->0),
                )
                &&& subject is Some && pki::pkcs8_scalar(k) is None && pki::sec1_scalar(k) is Some
                    ==> r == Ok::<_, CaError>((subject->0, pki::sec1_scalar(k)->0))
                &&& subject is Some && pki::pkcs8_scalar(k) is None && pki::sec1_scalar(k) is None
                    ==> r == Err::<(Seq<u8>, Seq<u8>), _>(CaError::NotP256)
            }
        }),
{
}

/// Parts of two PEM files that were read are put together in the same way.
pub proof fn law_authority_assembled(
    certificate: PemView,
    key: PemView,
    subject: Option<Seq<u8>>,
    pkcs8: Option<Seq<u8>>,
    sec1: Option<Seq<u8>>,
)
    ensures
        ({
            let r = ca_of_parts(certificate, key, subject, pkcs8, sec1);
            &&& r is Ok <==> certificate is Der && key is Der && subject is Some && (pkcs8 is Some
                || sec1 is Some)
            &&& r is Ok ==> (r->Ok_0).0 == subject->0
            &&& r is Ok && pkcs8 is Some ==> (r->Ok_0).1 == pkcs8->0
            &&& r is Ok && pkcs8 is None ==> (r->Ok_0).1 == sec1->0
            &&& r == Err::<(Seq<u8>, Seq<u8>), _>(CaError::NoCertificate)
                <==> certificate is Missing
            &&& r == Err::<(Seq<u8>, Seq<u8>), _>(CaError::BadCertificate)
                <==> certificate is Malformed
            &&& r == Err::<(Seq<u8>, Seq<u8>), _>(CaError::BadKey) <==> certificate is Der
                && key is Malformed
            &&& r == Err::<(Seq<u8>, Seq<u8>), _>(CaError::NoKey) <==> certificate is Der
                && key is Missing
            &&& r == Err::<(Seq<u8>, Seq<u8>), _>(CaError::NotX509) <==> certificate is Der
                && key is Der && subject is None
            &&& r == Err::<(Seq<u8>, Seq<u8>), _>(CaError::NotP256) <==> certificate is Der
                && key is Der && subject is Some && pkcs8 is None && sec1 is None
        }),
{
}

/// A serial number keeps all but the first bit of its bytes.
pub proof fn law_serial_keeps_bits(bytes: Seq<u8>)
    requires
        bytes.len() > 0,
    ensures
        serial_of(bytes).len() == bytes.len(),
        bytes[0] < 128 ==> serial_of(bytes) == bytes,
        bytes[0] >= 128 ==> serial_of(bytes)[0] == bytes[0] - 128,
        serial_of(bytes).skip(1) == bytes.skip(1),
{
    if bytes[0] < 128 {
        assert(serial_of(bytes) == bytes);
    }
    assert(serial_of(bytes).skip(1) == bytes.skip(1));
}

/// A certificate is refused for the first of these: the key cannot be written, the subject cannot, no
/// period is known, the alternative name cannot be written, the signature or the private key fails; and
/// for nothing else.
pub proof fn law_issue_refused(
    ca: (Seq<u8>, Seq<u8>),
    hostname: Seq<char>,
    scalar: Seq<u8>,
    serial: Seq<u8>,
    period: Option<(u64, u64)>,
)
    ensures
        ({
            let r = issued(ca, hostname, scalar, serial, period);
            let written = pki::public_key_info(scalar) is Some;
            let named = common_name_der(hostname).len() <= 0x0fff_ffff;
            let listed = is_ascii(hostname) && alt_name_der(hostname).len() <= 0x0fff_ffff;
            &&& r == Err::<(Seq<u8>, Seq<u8>), _>(CertError::PublicKey) <==> !written
            &&& r == Err::<(Seq<u8>, Seq<u8>), _>(CertError::Subject) <==> written && !named
            &&& r == Err::<(Seq<u8>, Seq<u8>), _>(CertError::Clock) <==> written && named
                && period is None
            &&& r == Err::<(Seq<u8>, Seq<u8>), _>(CertError::AltName) <==> written && named
                && period is Some && !listed
            &&& r is Ok || r == Err::<(Seq<u8>, Seq<u8>), _>(CertError::Signing) || r == Err::<
                (Seq<u8>, Seq<u8>),
                _,
            >(CertError::PrivateKey) <==> written && named && period is Some && listed
        }),
{
}

/// What a row of bytes is worth, the first most.
pub open spec fn bytes_worth(s: Seq<u8>) -> int
    decreases s.len(),
{
    if s.len() == 0 {
        0
    } else {
        bytes_worth(s.drop_last()) * 0x100 + s.last()
    }
}

/// A value in DER is read back: behind the tag stands the length, in one byte below 128 and otherwise in
/// as few bytes as it needs behind their number, and then the contents.
pub proof fn law_der_read_back(tag: u8, contents: Seq<u8>)
    requires
        contents.len() <= 0xffff_ffff,
    ensures
        ({
            let v = der_value(tag, contents);
            &&& v.len() >= 2
            &&& v[0] == tag
            &&& contents.len() < 128 ==> v[1] == contents.len() && v.skip(2) == contents
            &&& contents.len() >= 128 ==> {
                let n = v[1] - 128;
                &&& 1 <= n <= 4
                &&& v.len() == 2 + n + contents.len()
                &&& v[2] != 0
                &&& bytes_worth(v.subrange(2, 2 + n)) == contents.len()
                &&& v.skip(2 + n) == contents
            }
        }),
{
    reveal(der_length);
    let v = der_value(tag, contents);
    let size = contents.len() as int;
    let l = der_length(contents.len());
    assert(v[1] == l[0]);
    if size < 128 {
        assert(v.skip(2) == contents);
    } else {
        let n = l.len() - 1;
        assert(v[1] - 128 == n);
        assert(v.subrange(2, 2 + n) == l.skip(1));
        assert(v.skip(2 + n) == contents);
        lemma_der_length_worth(contents.len());
    }
}

/// The bytes of a long length are worth the length, and the first is not zero.
proof fn lemma_der_length_worth(n: nat)
    requires
        128 <= n <= 0xffff_ffff,
    ensures
        bytes_worth(der_length(n).skip(1)) == n,
        der_length(n)[1] != 0,
{
    reveal(der_length);
    let l = der_length(n).skip(1);
    let m = n as int;
    vstd::arithmetic::div_mod::lemma_div_denominator(m, 0x100, 0x100);
    vstd::arithmetic::div_mod::lemma_div_denominator(m, 0x1_0000, 0x100);
    vstd::arithmetic::div_mod::lemma_fundamental_div_mod(m, 0x100);
    vstd::arithmetic::div_mod::lemma_fundamental_div_mod(m / 0x100, 0x100);
    vstd::arithmetic::div_mod::lemma_fundamental_div_mod(m / 0x1_0000, 0x100);
    reveal_with_fuel(bytes_worth, 5);
    if n < 0x100 {
        assert(l == seq![n as u8]);
        assert(l.drop_last() == Seq::<u8>::empty());
    } else if n < 0x1_0000 {
        assert(l.drop_last().drop_last() == Seq::<u8>::empty());
    } else if n < 0x100_0000 {
        assert(l.drop_last().drop_last().drop_last() == Seq::<u8>::empty());
    } else {
        assert(l.drop_last().drop_last().drop_last().drop_last() == Seq::<u8>::empty());
    }
}

/// The subject is a sequence of one set of one attribute, the object identifier 2.5.4.3 and the hostname
/// as a UTF-8 string; the alternative names are a sequence of the hostname under tag two.
pub proof fn law_names_in_der(hostname: Seq<char>)
    ensures
        common_name_der(hostname) == der_value(
            48,
            der_value(
                49,
                der_value(
                    48,
                    seq![6u8, 3u8, 85u8, 4u8, 3u8] + der_value(12, utf8::encode_utf8(hostname)),
                ),
            ),
        ),
        alt_name_der(hostname) == der_value(48, der_value(130, utf8::encode_utf8(hostname))),
{
}

/// What is told of an authority, of a certificate, of bytes and of PEM items is all that they hold.
pub proof fn law_views_tell_all(
    ca: Ca,
    leaf: LeafCert,
    bytes: Vec<u8>,
    item: PemItem,
    template: LeafTemplate,
)
    ensures
        ca_view(Ok(ca)) == Ok::<_, CaError>((ca.subject@, ca.signer@)),
        leaf_view(Ok(leaf)) == Ok::<_, CertError>((leaf.certificate@, leaf.private_key@)),
        forall|e: CaError| ca_view(Err(e)) == Err::<(Seq<u8>, Seq<u8>), _>(e),
        forall|e: CertError| leaf_view(Err(e)) == Err::<(Seq<u8>, Seq<u8>), _>(e),
        bytes_view(Some(bytes)) == Some(bytes@),
        bytes_view(None) is None,
        item is Missing <==> item@ is Missing,
        item is Malformed <==> item@ is Malformed,
        item matches PemItem::Der(der) ==> item@ == PemView::Der(der@),
        template@.issuer == template.issuer@,
        template@.serial == template.serial@,
        template@.not_before == template.not_before,
        template@.not_after == template.not_after,
        template@.subject == template.subject@,
        template@.public_key == template.public_key@,
        template@.alt_name == template.alt_name@,
        template@.key_agreement == template.key_agreement,
        template@.key_encipherment == template.key_encipherment,
        template@.subject_key_id == template.subject_key_id,
{
}

/// Where all parts are there, the template holds each as it is, with the first bit of the serial number
/// cleared and all three options on; where one is not, the first that is missing is reported.
pub proof fn law_template_filled(
    issuer: Seq<u8>,
    serial: Seq<u8>,
    period: Option<(u64, u64)>,
    subject: Option<Seq<u8>>,
    public_key: Option<Seq<u8>>,
    alt_name: Option<Seq<u8>>,
)
    ensures
        ({
            let r = template_outcome(issuer, serial, period, subject, public_key, alt_name);
            &&& r is Ok <==> public_key is Some && subject is Some && period is Some
                && alt_name is Some
            &&& r matches Ok(t) ==> {
                &&& t.issuer == issuer
                &&& t.serial == serial_of(serial)
                &&& (t.not_before, t.not_after) == period->0
                &&& t.subject == subject->0
                &&& t.public_key == public_key->0
                &&& t.alt_name == alt_name->0
                &&& t.key_agreement && t.key_encipherment && t.subject_key_id
            }
            &&& public_key is None ==> r == Err::<TemplateView, _>(CertError::PublicKey)
            &&& public_key is Some && subject is None ==> r == Err::<TemplateView, _>(
                CertError::Subject,
            )
            &&& public_key is Some && subject is Some && period is None ==> r == Err::<
                TemplateView,
                _,
            >(CertError::Clock)
            &&& public_key is Some && subject is Some && period is Some && alt_name is None ==> r
                == Err::<TemplateView, _>(CertError::AltName)
        }),
{
}

/// A filled template that is signed gives the certificate and the private key; without a signature, or
/// without a private key, that is reported.
pub proof fn law_signed_template_issued(
    ca: (Seq<u8>, Seq<u8>),
    hostname: Seq<char>,
    scalar: Seq<u8>,
    serial: Seq<u8>,
    period: Option<(u64, u64)>,
    template: TemplateView,
)
    requires
        template_outcome(
            ca.0,
            serial,
            period,
            subject_of(hostname),
            pki::public_key_info(scalar),
            alt_name_of(hostname),
        ) == Ok::<_, CertError>(template),
    ensures
        ({
            let r = issued(ca, hostname, scalar, serial, period);
            let signed = pki::signed_leaf(template, ca.1);
            let key = pki::private_key_info(scalar);
            &&& signed is Some && key is Some ==> r == Ok::<_, CertError>((signed->0, key->0))
            &&& signed is None ==> r == Err::<(Seq<u8>, Seq<u8>), _>(CertError::Signing)
            &&& signed is Some && key is None ==> r == Err::<(Seq<u8>, Seq<u8>), _>(
                CertError::PrivateKey,
            )
        }),
{
}

}
