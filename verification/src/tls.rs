//! The TLS certificate: where it came from, what it covers, and the placeholder
//! that stands in for a real one.

use rcgen::{CertificateParams, SanType};
use rustls::pki_types::{CertificateDer, PrivateKeyDer};
use vstd::prelude::*;
use vstd::string::*;
use vstd::utf8::is_ascii_chars;

use crate::der::{issuer_organisation_bytes, organisation_of_issuer};
use crate::text::{
    ascii_lower, copy_list, from_utf8_lossy, lossy, opt_text, same, texts, to_ascii_lowercase,
};

verus! {

/// Where a certificate came from.
#[derive(Debug, Clone, Copy, PartialEq, Eq, Structural)]
pub enum CertSource {
    /// Generated by this server as a placeholder.
    SelfSigned,
    /// Ordered from the production ACME directory.
    Acme,
    /// Ordered from the staging ACME directory; no client trusts it.
    AcmeStaging,
    /// Installed by the operator.
    Operator,
}

/// What is known of the certificate in use.
#[derive(Debug, Clone)]
pub struct CertInfo {
    pub source: CertSource,
    pub issuer: String,
    pub names: Vec<String>,
    pub not_before: i64,
    pub not_after: i64,
}

/// Whether `names` holds `name`, in whatever case.
pub open spec fn names_hold(names: Seq<Seq<char>>, name: Seq<char>) -> bool {
    exists|i: int| 0 <= i < names.len() && #[trigger] ascii_lower(names[i]) == ascii_lower(name)
}

/// Whether `names` holds each of `wanted`, in whatever case.
pub open spec fn names_cover(names: Seq<Seq<char>>, wanted: Seq<Seq<char>>) -> bool {
    forall|i: int| 0 <= i < wanted.len() ==> names_hold(names, #[trigger] wanted[i])
}

/// Whether `list` holds `name`, in whatever case.
pub fn list_holds(list: &[String], name: &str) -> (r: bool)
    ensures
        r == names_hold(texts(list@), name@),
{
    let wanted = to_ascii_lowercase(name);
    let ghost all = texts(list@);
    let mut i: usize = 0;
    while i < list.len()
        invariant
            i <= list@.len(),
            all == texts(list@),
            wanted@ == ascii_lower(name@),
            forall|j: int| 0 <= j < i ==> #[trigger] ascii_lower(all[j]) != ascii_lower(name@),
        decreases list@.len() - i,
    {
        let low = to_ascii_lowercase(list[i].as_str());
        assert(all[i as int] == list@[i as int]@);
        if same(low.as_str(), wanted.as_str()) {
            assert(ascii_lower(all[i as int]) == ascii_lower(name@));
            return true;
        }
        i += 1;
    }
    false
}

/// Whether `list` holds each of `wanted`, in whatever case.
pub fn list_covers(list: &[String], wanted: &[String]) -> (r: bool)
    ensures
        r == names_cover(texts(list@), texts(wanted@)),
{
    let ghost names = texts(wanted@);
    let mut i: usize = 0;
    while i < wanted.len()
        invariant
            i <= wanted@.len(),
            names == texts(wanted@),
            forall|j: int| 0 <= j < i ==> names_hold(texts(list@), #[trigger] names[j]),
        decreases wanted@.len() - i,
    {
        assert(names[i as int] == wanted@[i as int]@);
        if !list_holds(list, wanted[i].as_str()) {
            return false;
        }
        i += 1;
    }
    true
}

impl CertInfo {
    /// Whether the certificate names each of `names`.
    pub fn covers(&self, names: &Vec<String>) -> (r: bool)
        ensures
            r == names_cover(texts(self.names@), texts(names@)),
    {
        list_covers(self.names.as_slice(), names.as_slice())
    }

    /// For how long the certificate is valid altogether.
    pub fn lifetime_secs(&self) -> (r: i128)
        ensures
            r == self.not_after - self.not_before,
    {
        self.not_after as i128 - self.not_before as i128
    }
}

// ---- the self-signed placeholder ----

/// The names on a self-signed certificate: those asked for, and `localhost`.
pub open spec fn placeholder_names(names: Seq<Seq<char>>) -> Seq<Seq<char>> {
    names.push("localhost"@)
}

/// The names on a self-signed certificate.
pub fn self_signed_names(names: &Vec<String>) -> (r: Vec<String>)
    ensures
        texts(r@) == placeholder_names(texts(names@)),
{
    let mut out = copy_list(names);
    let ghost before = out@;
    out.push("localhost".to_string());
    assert(texts(out@) =~= texts(before).push("localhost"@));
    out
}

/// A certificate and its private key, both in PEM.
pub struct CertificatePem {
    pub cert: String,
    pub key: String,
}

/// Whether every name is made of ASCII characters.
pub open spec fn are_ascii(names: Seq<Seq<char>>) -> bool {
    forall|i: int| 0 <= i < names.len() ==> is_ascii_chars(#[trigger] names[i])
}

/// Whether a text is in PEM, under that label.
pub open spec fn is_pem(s: Seq<char>, label: Seq<char>) -> bool {
    ("-----BEGIN "@ + label + "-----"@).is_prefix_of(s)
}

impl CertificatePem {
    /// Whether both texts are in PEM, as a certificate and as a private key.
    pub open spec fn is_labelled(&self) -> bool {
        is_pem(self.cert@, "CERTIFICATE"@) && is_pem(self.key@, "PRIVATE KEY"@)
    }
}

/// Whether a certificate and its key, both in PEM, are such as
/// `rcgen::generate_simple_self_signed` makes for `names`. One list of names has
/// many, of which chance picks one.
pub uninterp spec fn self_signed_for(
    names: Seq<Seq<char>>,
    cert: Seq<char>,
    key: Seq<char>,
) -> bool;

/// `rcgen::generate_simple_self_signed`, then `pem` of the certificate and
/// `serialize_pem` of its key: a certificate for `names`, signed with a fresh key
/// of its own. It takes ASCII names alone, and both texts are in PEM. Which of the
/// certificates for these names comes is left to chance, as is whether the system
/// has the randomness for a key; `None` stands for any failure.
#[verifier::external_body]
fn generate_simple(names: Vec<String>) -> (r: Option<CertificatePem>)
    ensures
        r is Some ==> self_signed_for(texts(names@), r->0.cert@, r->0.key@),
        r is Some ==> r->0.is_labelled(),
        r is Some ==> are_ascii(texts(names@)),
{
    let made = rcgen::generate_simple_self_signed(names).ok()?;
    Some(CertificatePem { cert: made.cert.pem(), key: made.key_pair.serialize_pem() })
}

/// A self-signed certificate for `names` and `localhost`. None comes for a name
/// that is not ASCII; otherwise it is up to the generator whether one comes, and
/// which.
pub fn self_signed_certificate(names: &Vec<String>) -> (r: Option<CertificatePem>)
    ensures
        r is Some ==> self_signed_for(
            placeholder_names(texts(names@)),
            r->0.cert@,
            r->0.key@,
        ),
        r is Some ==> r->0.is_labelled(),
        !are_ascii(texts(names@)) ==> r is None,
{
    let r = generate_simple(self_signed_names(names));
    proof {
        let wanted = texts(names@);
        assert forall|i: int| r is Some && 0 <= i < wanted.len() implies is_ascii_chars(
            #[trigger] wanted[i],
        ) by {
            assert(placeholder_names(wanted)[i] == wanted[i]);
        }
    }
    r
}

/// Whether a certificate is a placeholder that lacks one of the names.
pub open spec fn is_stale(info: Option<CertInfo>, names: Seq<Seq<char>>) -> bool {
    &&& info is Some
    &&& info->0.source == CertSource::SelfSigned
    &&& !names_cover(texts(info->0.names@), names)
}

/// Whether the placeholder has gone stale: it names the hostname, so it has to be
/// reissued when the names change. A real certificate is never touched.
pub fn placeholder_is_stale(info: &Option<CertInfo>, names: &Vec<String>) -> (r: bool)
    ensures
        r == (info is Some && info->0.source == CertSource::SelfSigned && !names_cover(
            texts(info->0.names@),
            texts(names@),
        )),
        r == is_stale(*info, texts(names@)),
{
    match info {
        Some(i) => i.source == CertSource::SelfSigned && !i.covers(names),
        None => false,
    }
}

// ---- reading what is stored ----

/// The contents of byte strings.
pub open spec fn byte_lists(v: Seq<Vec<u8>>) -> Seq<Seq<u8>> {
    v.map_values(|b: Vec<u8>| b@)
}

/// What `rustls_pemfile::certs` finds in a PEM file: the DER form of each
/// certificate, or `None` if it reports an error.
pub uninterp spec fn pem_certificates_of(pem: Seq<u8>) -> Option<Seq<Seq<u8>>>;

/// `rustls_pemfile::certs`, collected up to the first error: the DER form of each
/// certificate, which is a function of the bytes. `None` stands for any error.
#[verifier::external_body]
fn read_certificates(pem: &[u8]) -> (r: Option<Vec<Vec<u8>>>)
    ensures
        match r {
            Some(list) => pem_certificates_of(pem@) == Some(byte_lists(list@)),
            None => pem_certificates_of(pem@) is None,
        },
{
    let mut reader = pem;
    rustls_pemfile::certs(&mut reader).map(|c| c.ok().map(|der| der.to_vec())).collect()
}

/// How a private key is written down.
#[derive(Debug, Clone, Copy, PartialEq, Eq, Structural)]
pub enum KeyFormat {
    Pkcs1,
    Sec1,
    Pkcs8,
}

/// A private key, in DER.
pub struct PrivateKey {
    pub format: KeyFormat,
    pub der: Vec<u8>,
}

impl View for PrivateKey {
    type V = (KeyFormat, Seq<u8>);

    open spec fn view(&self) -> (KeyFormat, Seq<u8>) {
        (self.format, self.der@)
    }
}

/// What `rustls_pemfile::private_key` finds in a PEM file: the first private key,
/// if there is one, or `None` if it reports an error.
pub uninterp spec fn pem_key_of(pem: Seq<u8>) -> Option<Option<(KeyFormat, Seq<u8>)>>;

/// `rustls_pemfile::private_key`: the first private key, which is a function of the
/// bytes. It has one of three formats. `None` stands for any error.
#[verifier::external_body]
fn read_private_key(pem: &[u8]) -> (r: Option<Option<PrivateKey>>)
    ensures
        match r {
            Some(Some(key)) => pem_key_of(pem@) == Some(Some(key@)),
            Some(None) => pem_key_of(pem@) == Some(None::<(KeyFormat, Seq<u8>)>),
            None => pem_key_of(pem@) is None,
        },
{
    let mut reader = pem;
    let found = rustls_pemfile::private_key(&mut reader).ok()?;
    Some(found.map(|key| {
        let format = match key {
            PrivateKeyDer::Pkcs1(_) => KeyFormat::Pkcs1,
            PrivateKeyDer::Sec1(_) => KeyFormat::Sec1,
            _ => KeyFormat::Pkcs8,
        };
        PrivateKey { format, der: key.secret_der().to_vec() }
    }))
}

/// The certificates to serve, given what a certificate file holds, or why there are
/// none.
pub fn served_chain(found: Option<Vec<Vec<u8>>>) -> (r: Result<Vec<Vec<u8>>, String>)
    ensures
        match found {
            None => r is Err && r->Err_0@ == "failed to read cert.pem"@,
            Some(list) => if list@.len() == 0 {
                r is Err && r->Err_0@ == "invalid TLS certificate/key"@
            } else {
                r == Ok::<Vec<Vec<u8>>, String>(list)
            },
        },
{
    match found {
        None => Err("failed to read cert.pem".to_string()),
        Some(list) => if list.len() == 0 {
            Err("invalid TLS certificate/key".to_string())
        } else {
            Ok(list)
        },
    }
}

/// The certificates in a certificate file, the server's own first, or why there are
/// none.
pub fn certificate_chain(pem: &[u8]) -> (r: Result<Vec<Vec<u8>>, String>)
    ensures
        match pem_certificates_of(pem@) {
            None => r is Err && r->Err_0@ == "failed to read cert.pem"@,
            Some(list) => if list.len() == 0 {
                r is Err && r->Err_0@ == "invalid TLS certificate/key"@
            } else {
                r is Ok && byte_lists(r->Ok_0@) == list
            },
        },
{
    served_chain(read_certificates(pem))
}

/// The key to serve with, given what a key file holds, or why there is none.
pub fn served_key(found: Option<Option<PrivateKey>>) -> (r: Result<PrivateKey, String>)
    ensures
        match found {
            None => r is Err && r->Err_0@ == "failed to read key.pem"@,
            Some(None) => r is Err && r->Err_0@ == "no private key found in key.pem"@,
            Some(Some(key)) => r == Ok::<PrivateKey, String>(key),
        },
{
    match found {
        None => Err("failed to read key.pem".to_string()),
        Some(None) => Err("no private key found in key.pem".to_string()),
        Some(Some(key)) => Ok(key),
    }
}

/// The private key in a key file, or why there is none.
pub fn private_key(pem: &[u8]) -> (r: Result<PrivateKey, String>)
    ensures
        match pem_key_of(pem@) {
            None => r is Err && r->Err_0@ == "failed to read key.pem"@,
            Some(None) => r is Err && r->Err_0@ == "no private key found in key.pem"@,
            Some(Some(key)) => r is Ok && r->Ok_0@ == key,
        },
{
    served_key(read_private_key(pem))
}

// ---- recognising a certificate ----

/// The organisation of a certificate's issuer as text, or nothing.
pub open spec fn organisation_text(der: Seq<u8>) -> Seq<char> {
    match organisation_of_issuer(der) {
        Some(name) => lossy(name),
        None => ""@,
    }
}

/// The organisation of a certificate's issuer. Empty if the issuer names none, or
/// if the certificate cannot be read.
pub fn issuer_organisation(der: &[u8]) -> (r: String)
    ensures
        r@ == organisation_text(der@),
{
    match issuer_organisation_bytes(der) {
        Some(name) => from_utf8_lossy(name.as_slice()),
        None => "".to_string(),
    }
}

/// What this server remembers of the certificate that it made or ordered.
pub struct IssuedBy {
    pub source: CertSource,
    pub serial: String,
}

/// What an [`IssuedBy`] says.
pub open spec fn recorded_text(recorded: Option<IssuedBy>) -> Option<(CertSource, Seq<char>)> {
    match recorded {
        Some(i) => Some((i.source, i.serial@)),
        None => None,
    }
}

/// Where a certificate came from: a certificate that this server made or ordered is
/// recognised by its serial number. For others the issuer's organisation decides.
pub open spec fn source_of(
    recorded: Option<(CertSource, Seq<char>)>,
    serial: Seq<char>,
    organisation: Seq<char>,
) -> CertSource {
    match recorded {
        Some((source, known)) if known == serial => source,
        _ => if organisation == "Let's Encrypt"@ {
            CertSource::Acme
        } else if organisation == "(STAGING) Let's Encrypt"@ {
            CertSource::AcmeStaging
        } else {
            CertSource::Operator
        },
    }
}

/// Where a certificate came from.
pub fn recognise(
    recorded: &Option<IssuedBy>,
    serial: &str,
    organisation: &str,
) -> (r: CertSource)
    ensures
        r == source_of(
            recorded_text(*recorded),
            serial@,
            organisation@,
        ),
{
    if let Some(i) = recorded {
        if same(i.serial.as_str(), serial) {
            return i.source;
        }
    }
    if same(organisation, "Let's Encrypt") {
        CertSource::Acme
    } else if same(organisation, "(STAGING) Let's Encrypt") {
        CertSource::AcmeStaging
    } else {
        CertSource::Operator
    }
}

// ---- describing a certificate ----

/// What a certificate says of itself.
pub struct CertFields {
    pub serial: Option<String>,
    /// The names it is for; `None` for one that is neither a domain nor an address.
    pub names: Vec<Option<String>>,
    pub not_before: i64,
    pub not_after: i64,
}

/// What [`CertFields`] say.
#[verifier::ext_equal]
pub struct CertFieldsView {
    pub serial: Option<Seq<char>>,
    pub names: Seq<Option<Seq<char>>>,
    pub not_before: i64,
    pub not_after: i64,
}

impl View for CertFields {
    type V = CertFieldsView;

    open spec fn view(&self) -> CertFieldsView {
        CertFieldsView {
            serial: opt_text(self.serial),
            names: self.names@.map_values(|n: Option<String>| opt_text(n)),
            not_before: self.not_before,
            not_after: self.not_after,
        }
    }
}

/// What `rcgen::CertificateParams::from_ca_cert_der` reads from a certificate; `None`
/// if it reports an error.
pub uninterp spec fn certificate_fields_of(der: Seq<u8>) -> Option<CertFieldsView>;

/// `rcgen::CertificateParams::from_ca_cert_der`: the serial number, the alternative
/// names and the dates of a certificate, which are functions of its bytes. `None`
/// stands for any error.
#[verifier::external_body]
fn read_fields(der: &[u8]) -> (r: Option<CertFields>)
    ensures
        match r {
            Some(fields) => certificate_fields_of(der@) == Some(fields@),
            None => certificate_fields_of(der@) is None,
        },
{
    let params = CertificateParams::from_ca_cert_der(&CertificateDer::from(der)).ok()?;
    let plain = |name: &SanType| match name {
        SanType::DnsName(domain) => Some(domain.as_str().to_string()),
        SanType::IpAddress(ip) => Some(ip.to_string()),
        _ => None,
    };
    Some(CertFields {
        serial: params.serial_number.as_ref().map(|s| s.to_string()),
        names: params.subject_alt_names.iter().map(plain).collect(),
        not_before: params.not_before.unix_timestamp(),
        not_after: params.not_after.unix_timestamp(),
    })
}

/// The names that are there.
pub open spec fn known_names(names: Seq<Option<Seq<char>>>) -> Seq<Seq<char>>
    decreases names.len(),
{
    if names.len() == 0 {
        Seq::empty()
    } else {
        match names.last() {
            Some(name) => known_names(names.drop_last()).push(name),
            None => known_names(names.drop_last()),
        }
    }
}

fn keep_known_names(names: &Vec<Option<String>>) -> (r: Vec<String>)
    ensures
        texts(r@) == known_names(names@.map_values(|n: Option<String>| opt_text(n))),
{
    let ghost all = names@.map_values(|n: Option<String>| opt_text(n));
    let mut out: Vec<String> = Vec::new();
    let mut i: usize = 0;
    assert(texts(out@) =~= known_names(all.take(0)));
    while i < names.len()
        invariant
            i <= names@.len(),
            all == names@.map_values(|n: Option<String>| opt_text(n)),
            texts(out@) == known_names(all.take(i as int)),
        decreases names@.len() - i,
    {
        assert(all.take(i + 1).drop_last() =~= all.take(i as int));
        assert(all.take(i + 1).last() == opt_text(names@[i as int]));
        if let Some(name) = &names[i] {
            let ghost before = out@;
            out.push(name.clone());
            assert(texts(out@) =~= texts(before).push(name@));
        }
        i += 1;
    }
    assert(all.take(all.len() as int) =~= all);
    out
}

/// The serial number that a certificate is recorded under.
pub open spec fn serial_text(f: CertFieldsView) -> Seq<char> {
    match f.serial {
        Some(s) => s,
        None => ""@,
    }
}

fn serial_of(serial: &Option<String>) -> (r: String)
    ensures
        r@ == (match opt_text(*serial) {
            Some(s) => s,
            None => ""@,
        }),
{
    match serial {
        Some(s) => s.clone(),
        None => "".to_string(),
    }
}

/// Whether `info` is what is known of a certificate that says `f` of itself.
pub open spec fn describes(
    info: CertInfo,
    f: CertFieldsView,
    organisation: Seq<char>,
    recorded: Option<IssuedBy>,
) -> bool {
    &&& info.source == source_of(recorded_text(recorded), serial_text(f), organisation)
    &&& info.issuer@ == organisation
    &&& texts(info.names@) == known_names(f.names)
    &&& info.not_before == f.not_before
    &&& info.not_after == f.not_after
}

/// What is known of a certificate, given what it says of itself, the organisation
/// of its issuer, and what this server remembers.
pub fn describe(fields: CertFields, organisation: String, recorded: &Option<IssuedBy>) -> (r:
    CertInfo)
    ensures
        describes(r, fields@, organisation@, *recorded),
{
    let serial = serial_of(&fields.serial);
    CertInfo {
        source: recognise(recorded, serial.as_str(), organisation.as_str()),
        issuer: organisation,
        names: keep_known_names(&fields.names),
        not_before: fields.not_before,
        not_after: fields.not_after,
    }
}

/// What is known of a certificate; `None` if it cannot be read.
pub fn certificate_info(der: &[u8], recorded: &Option<IssuedBy>) -> (r: Option<CertInfo>)
    ensures
        match certificate_fields_of(der@) {
            Some(f) => r is Some && describes(r->0, f, organisation_text(der@), *recorded),
            None => r is None,
        },
{
    match read_fields(der) {
        Some(fields) => Some(describe(fields, issuer_organisation(der), recorded)),
        None => None,
    }
}

/// The serial number to record a certificate under; `None` if it cannot be read.
pub fn certificate_serial(der: &[u8]) -> (r: Option<String>)
    ensures
        opt_text(r) == (match certificate_fields_of(der@) {
            Some(f) => Some(serial_text(f)),
            None => None,
        }),
{
    match read_fields(der) {
        Some(fields) => Some(serial_of(&fields.serial)),
        None => None,
    }
}

} // verus!
