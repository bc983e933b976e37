//! Certificates and private keys, and which of them a TLS client is shown.

use crate::config::HostConfig;
use crate::text::lower;
use rustls::crypto::ring::sign::any_supported_type;
use rustls::pki_types::CertificateDer;
use rustls::pki_types::PrivateKeyDer;
use rustls::server::ResolvesServerCertUsingSni;
use rustls::sign::CertifiedKey;
use vstd::prelude::*;

verus! {

/// The certificates of a server by name, from which one is chosen in each handshake.
#[verifier::external_type_specification]
#[verifier::external_body]
pub struct ExResolvesServerCertUsingSni(ResolvesServerCertUsingSni);

/// A certificate chain with its private key.
#[verifier::external_type_specification]
#[verifier::external_body]
pub struct ExCertifiedKey(CertifiedKey);

/// Why a key or a certificate is refused.
#[verifier::external_type_specification]
#[verifier::external_body]
pub struct ExRustlsError(rustls::Error);

/// Why a file cannot be read.
#[verifier::external_type_specification]
#[verifier::external_body]
pub struct ExIoError(std::io::Error);

/// How a private key is encoded.
#[derive(Debug, Clone, Copy, PartialEq, Eq, Structural)]
pub enum KeyFormat {
    Pkcs1,
    Sec1,
    Pkcs8,
}

/// A private key.
#[derive(Debug)]
pub struct PrivateKey {
    pub format: KeyFormat,
    pub der: Vec<u8>,
}

/// A private key, as a mathematical value.
pub struct KeyModel {
    pub format: KeyFormat,
    pub der: Seq<u8>,
}

impl View for PrivateKey {
    type V = KeyModel;

    open spec fn view(&self) -> KeyModel {
        KeyModel { format: self.format, der: self.der@ }
    }
}

/// Why a host cannot be given its certificate.
#[derive(Debug)]
pub enum TlsError {
    /// The certificate file cannot be read
    UnreadableCerts,
    /// The key file cannot be read
    UnreadableKey,
    /// The certificate file is not PEM
    MalformedCerts,
    /// The certificate file holds no certificate
    NoCertificates,
    /// The key file is not PEM
    MalformedKey,
    /// The key file holds no private key
    NoPrivateKey,
    /// The private key is not supported; the message says why
    UnsupportedKey(String),
    /// The certificate cannot be used for this name
    RejectedName(String),
}

/// A reason for refusal, as a mathematical value.
pub enum TlsFault {
    UnreadableCerts,
    UnreadableKey,
    MalformedCerts,
    NoCertificates,
    MalformedKey,
    NoPrivateKey,
    UnsupportedKey(Seq<char>),
    RejectedName(Seq<char>),
}

impl View for TlsError {
    type V = TlsFault;

    open spec fn view(&self) -> TlsFault {
        match self {
            TlsError::UnreadableCerts => TlsFault::UnreadableCerts,
            TlsError::UnreadableKey => TlsFault::UnreadableKey,
            TlsError::MalformedCerts => TlsFault::MalformedCerts,
            TlsError::NoCertificates => TlsFault::NoCertificates,
            TlsError::MalformedKey => TlsFault::MalformedKey,
            TlsError::NoPrivateKey => TlsFault::NoPrivateKey,
            TlsError::UnsupportedKey(reason) => TlsFault::UnsupportedKey(reason@),
            TlsError::RejectedName(name) => TlsFault::RejectedName(name@),
        }
    }
}

/// The text that describes a reason for refusal.
pub open spec fn tls_fault_text(fault: TlsFault) -> Seq<char> {
    match fault {
        TlsFault::UnreadableCerts => "cannot read cert file"@,
        TlsFault::UnreadableKey => "cannot read key file"@,
        TlsFault::MalformedCerts => "malformed cert file"@,
        TlsFault::NoCertificates => "no certificates found in cert file"@,
        TlsFault::MalformedKey => "malformed key file"@,
        TlsFault::NoPrivateKey => "no private key found in key file"@,
        TlsFault::UnsupportedKey(reason) => "unsupported key: "@ + reason,
        TlsFault::RejectedName(name) => "cannot use certificate for name "@ + name,
    }
}

impl TlsError {
    /// The text that describes the error.
    pub fn message(&self) -> (r: String)
        ensures
            r@ == tls_fault_text(self@),
    {
        let mut r = String::new();
        match self {
            TlsError::UnreadableCerts => r.append("cannot read cert file"),
            TlsError::UnreadableKey => r.append("cannot read key file"),
            TlsError::MalformedCerts => r.append("malformed cert file"),
            TlsError::NoCertificates => r.append("no certificates found in cert file"),
            TlsError::MalformedKey => r.append("malformed key file"),
            TlsError::NoPrivateKey => r.append("no private key found in key file"),
            TlsError::UnsupportedKey(reason) => {
                r.append("unsupported key: ");
                r.append(reason.as_str());
            },
            TlsError::RejectedName(name) => {
                r.append("cannot use certificate for name ");
                r.append(name.as_str());
            },
        }
        assert(r@ =~= tls_fault_text(self@));
        r
    }
}

/// The certificates in PEM text, in order; `None` if it is malformed.
pub uninterp spec fn pem_certs(pem: Seq<u8>) -> Option<Seq<Seq<u8>>>;

/// The first private key in PEM text, if it holds one; `None` if it is malformed
/// up to there.
pub uninterp spec fn pem_key(pem: Seq<u8>) -> Option<Option<KeyModel>>;

/// What a certified key holds: a certificate chain, and the private key that it
/// was made with.
pub uninterp spec fn certified_parts(key: CertifiedKey) -> (Seq<Seq<u8>>, KeyModel);

/// The chain and the key that each server name is given; names are in lower case.
pub uninterp spec fn certificates(resolver: ResolvesServerCertUsingSni) -> Map<
    Seq<char>,
    (Seq<Seq<u8>>, KeyModel),
>;

/// A text is a DNS name, and a certificate chain is valid for it.
pub uninterp spec fn is_valid_for(chain: Seq<Seq<u8>>, name: Seq<char>) -> bool;

/// `rustls_pemfile::certs` on all of the bytes, collected up to the first error.
#[verifier::external_body]
fn read_certs(pem: &[u8]) -> (r: Result<Vec<Vec<u8>>, std::io::Error>)
    ensures
        match r {
            Ok(certs) => pem_certs(pem@) == Some(certs.deep_view()),
            Err(_) => pem_certs(pem@) is None,
        },
{
    let mut rest = pem;
    rustls_pemfile::certs(&mut rest).map(|cert| cert.map(|c| c.to_vec())).collect()
}

/// `rustls_pemfile::private_key` on all of the bytes. It gives keys in the three
/// formats of [`KeyFormat`] only.
#[verifier::external_body]
fn read_key(pem: &[u8]) -> (r: Result<Option<PrivateKey>, std::io::Error>)
    ensures
        match r {
            Ok(Some(key)) => pem_key(pem@) == Some(Some(key@)),
            Ok(None) => pem_key(pem@) == Some(None::<KeyModel>),
            Err(_) => pem_key(pem@) is None,
        },
{
    let mut rest = pem;
    let key = rustls_pemfile::private_key(&mut rest)?;
    Ok(key.map(|key| PrivateKey {
        format: match &key {
            PrivateKeyDer::Pkcs1(_) => KeyFormat::Pkcs1,
            PrivateKeyDer::Sec1(_) => KeyFormat::Sec1,
            _ => KeyFormat::Pkcs8,
        },
        der: key.secret_der().to_vec(),
    }))
}

/// `any_supported_type` of `rustls`, and `CertifiedKey::new` with the signing key
/// that it makes; on failure, the message of its error. Which keys it takes is left
/// open: making one can draw on the system's source of randomness, and fail with it.
#[verifier::external_body]
fn certify(chain: &Vec<Vec<u8>>, key: &PrivateKey) -> (r: Result<CertifiedKey, String>)
    ensures
        r matches Ok(certified) ==> certified_parts(certified) == (chain.deep_view(), key@),
{
    let der = match key.format {
        KeyFormat::Pkcs1 => PrivateKeyDer::Pkcs1(key.der.clone().into()),
        KeyFormat::Sec1 => PrivateKeyDer::Sec1(key.der.clone().into()),
        KeyFormat::Pkcs8 => PrivateKeyDer::Pkcs8(key.der.clone().into()),
    };
    let signing = any_supported_type(&der).map_err(|e| e.to_string())?;
    Ok(CertifiedKey::new(chain.iter().map(|c| CertificateDer::from(c.clone())).collect(), signing))
}

/// `ResolvesServerCertUsingSni::new`: no name has a certificate.
#[verifier::external_body]
fn empty_resolver() -> (r: ResolvesServerCertUsingSni)
    ensures
        certificates(r) == no_certificates(),
{
    ResolvesServerCertUsingSni::new()
}

/// `ResolvesServerCertUsingSni::add`, with a clone of the key: the name, in lower
/// case, has that certificate from now on. A text that is no DNS name, or that the
/// certificate is not valid for, is refused, and nothing changes.
#[verifier::external_body]
fn add_certificate(
    resolver: &mut ResolvesServerCertUsingSni,
    name: &str,
    key: &CertifiedKey,
) -> (r: Result<(), rustls::Error>)
    ensures
        r is Ok <==> is_valid_for(certified_parts(*key).0, name@),
        r is Ok ==> certificates(*final(resolver)) == certificates(*old(resolver)).insert(
            lower(name@),
            certified_parts(*key),
        ),
        r is Err ==> certificates(*final(resolver)) == certificates(*old(resolver)),
{
    resolver.add(name, key.clone())
}

/// No name has a certificate.
pub open spec fn no_certificates() -> Map<Seq<char>, (Seq<Seq<u8>>, KeyModel)> {
    Map::empty()
}

/// What a certificate file gives, by what its PEM text holds.
pub open spec fn certs_outcome(parsed: Option<Seq<Seq<u8>>>) -> Result<Seq<Seq<u8>>, TlsFault> {
    match parsed {
        None => Err(TlsFault::MalformedCerts),
        Some(certs) => if certs.len() == 0 {
            Err(TlsFault::NoCertificates)
        } else {
            Ok(certs)
        },
    }
}

/// What a key file gives, by what its PEM text holds.
pub open spec fn key_outcome(parsed: Option<Option<KeyModel>>) -> Result<KeyModel, TlsFault> {
    match parsed {
        None => Err(TlsFault::MalformedKey),
        Some(None) => Err(TlsFault::NoPrivateKey),
        Some(Some(key)) => Ok(key),
    }
}

/// Giving names a certificate, one after the other, up to the first that it is not
/// valid for: the outcome, and the certificates of all names then.
pub open spec fn with_names(
    all: Map<Seq<char>, (Seq<Seq<u8>>, KeyModel)>,
    names: Seq<Seq<char>>,
    parts: (Seq<Seq<u8>>, KeyModel),
) -> (Result<(), TlsFault>, Map<Seq<char>, (Seq<Seq<u8>>, KeyModel)>)
    decreases names.len(),
{
    if names.len() == 0 {
        (Ok(()), all)
    } else {
        let (outcome, before) = with_names(all, names.drop_last(), parts);
        if outcome is Err {
            (outcome, before)
        } else if !is_valid_for(parts.0, names.last()) {
            (Err(TlsFault::RejectedName(names.last())), before)
        } else {
            (Ok(()), before.insert(lower(names.last()), parts))
        }
    }
}

/// An outcome, as a mathematical value.
pub open spec fn tls_outcome(r: Result<(), TlsError>) -> Result<(), TlsFault> {
    match r {
        Ok(()) => Ok(()),
        Err(error) => Err(error@),
    }
}

/// The certificates in the text of a certificate file.
pub fn load_certs(pem: &[u8]) -> (r: Result<Vec<Vec<u8>>, TlsError>)
    ensures
        match r {
            Ok(certs) => certs_outcome(pem_certs(pem@)) == Ok::<Seq<Seq<u8>>, TlsFault>(
                certs.deep_view(),
            ),
            Err(error) => certs_outcome(pem_certs(pem@)) == Err::<Seq<Seq<u8>>, TlsFault>(error@),
        },
{
    match read_certs(pem) {
        Ok(certs) => certs_found(Some(certs)),
        Err(_) => certs_found(None),
    }
}

/// The certificates of a certificate file, given those in its text.
pub fn certs_found(parsed: Option<Vec<Vec<u8>>>) -> (r: Result<Vec<Vec<u8>>, TlsError>)
    ensures
        match r {
            Ok(certs) => certs_outcome(parsed.deep_view()) == Ok::<Seq<Seq<u8>>, TlsFault>(
                certs.deep_view(),
            ),
            Err(error) => certs_outcome(parsed.deep_view()) == Err::<Seq<Seq<u8>>, TlsFault>(
                error@,
            ),
        },
{
    match parsed {
        None => Err(TlsError::MalformedCerts),
        Some(certs) => if certs.len() == 0 {
            Err(TlsError::NoCertificates)
        } else {
            Ok(certs)
        },
    }
}

/// The private key in the text of a key file.
pub fn load_key(pem: &[u8]) -> (r: Result<PrivateKey, TlsError>)
    ensures
        match r {
            Ok(key) => key_outcome(pem_key(pem@)) == Ok::<KeyModel, TlsFault>(key@),
            Err(error) => key_outcome(pem_key(pem@)) == Err::<KeyModel, TlsFault>(error@),
        },
{
    match read_key(pem) {
        Ok(Some(key)) => Ok(key),
        Ok(None) => Err(TlsError::NoPrivateKey),
        Err(_) => Err(TlsError::MalformedKey),
    }
}

/// A resolver in which no name has a certificate.
pub fn new_resolver() -> (r: ResolvesServerCertUsingSni)
    ensures
        certificates(r) == no_certificates(),
{
    empty_resolver()
}

/// Give all names of a host its certificate. A key that is not supported changes
/// nothing; otherwise the names are given the certificate one after the other, up
/// to the first that it is not valid for.
pub fn add_host(
    resolver: &mut ResolvesServerCertUsingSni,
    host: &HostConfig,
    chain: &Vec<Vec<u8>>,
    key: &PrivateKey,
) -> (r: Result<(), TlsError>)
    ensures
        ({
            ||| r matches Err(TlsError::UnsupportedKey(_)) && certificates(*final(resolver))
                == certificates(*old(resolver))
            ||| (tls_outcome(r), certificates(*final(resolver))) == with_names(
                certificates(*old(resolver)),
                host@.names,
                (chain.deep_view(), key@),
            )
        }),
{
    match certify(chain, key) {
        Ok(certified) => add_names(resolver, &host.names, &certified),
        Err(reason) => Err(TlsError::UnsupportedKey(reason)),
    }
}

/// Give names a certificate, one after the other, up to the first that it is not
/// valid for.
pub fn add_names(
    resolver: &mut ResolvesServerCertUsingSni,
    names: &Vec<String>,
    key: &CertifiedKey,
) -> (r: Result<(), TlsError>)
    ensures
        (tls_outcome(r), certificates(*final(resolver))) == with_names(
            certificates(*old(resolver)),
            names.deep_view(),
            certified_parts(*key),
        ),
{
    let ghost all = certificates(*resolver);
    let ghost texts = names.deep_view();
    let ghost parts = certified_parts(*key);
    let mut i: usize = 0;
    while i < names.len()
        invariant
            i <= names@.len(),
            all == certificates(*old(resolver)),
            texts == names.deep_view(),
            parts == certified_parts(*key),
            with_names(all, texts.take(i as int), parts) == (
                Ok::<(), TlsFault>(()),
                certificates(*resolver),
            ),
        decreases names@.len() - i,
    {
        proof {
            assert(texts[i as int] == names@[i as int]@);
            assert(texts.take(i + 1).drop_last() =~= texts.take(i as int));
            assert(texts.take(i + 1).last() == names@[i as int]@);
        }
        if add_certificate(resolver, names[i].as_str(), key).is_err() {
            proof {
                names_fault_stays(all, texts, parts, i + 1);
            }
            return Err(TlsError::RejectedName(names[i].clone()));
        }
        i += 1;
    }
    assert(texts.take(texts.len() as int) =~= texts);
    Ok(())
}

/// Nothing changes after the first name that is refused.
proof fn names_fault_stays(
    all: Map<Seq<char>, (Seq<Seq<u8>>, KeyModel)>,
    names: Seq<Seq<char>>,
    parts: (Seq<Seq<u8>>, KeyModel),
    n: int,
)
    requires
        0 <= n <= names.len(),
        with_names(all, names.take(n), parts).0 is Err,
    ensures
        with_names(all, names, parts) == with_names(all, names.take(n), parts),
    decreases names.len(),
{
    if n < names.len() {
        assert(names.drop_last().take(n) =~= names.take(n));
        names_fault_stays(all, names.drop_last(), parts, n);
    } else {
        assert(names.take(n) =~= names);
    }
}

/// All names of a host share its certificate, and the certificates of other names
/// stay as they are: a name that no host has is given none.
pub proof fn names_share_certificate(
    all: Map<Seq<char>, (Seq<Seq<u8>>, KeyModel)>,
    names: Seq<Seq<char>>,
    parts: (Seq<Seq<u8>>, KeyModel),
    name: Seq<char>,
)
    ensures
        with_names(all, names, parts).0 is Ok <==> (forall|i: int|
            0 <= i < names.len() ==> is_valid_for(parts.0, #[trigger] names[i])),
        with_names(all, names, parts).0 is Ok ==> ({
            let shown = with_names(all, names, parts).1;
            if is_name_of(names, name) {
                shown.dom().contains(name) && shown[name] == parts
            } else {
                (shown.dom().contains(name) <==> all.dom().contains(name)) && shown[name]
                    == all[name]
            }
        }),
    decreases names.len(),
{
    if names.len() > 0 {
        let first = names.drop_last();
        let last = names.last();
        names_share_certificate(all, first, parts, name);
        assert(names[names.len() - 1] == last);
        assert(forall|i: int| 0 <= i < first.len() ==> first[i] == #[trigger] names[i]);
        if forall|i: int| 0 <= i < first.len() ==> is_valid_for(parts.0, #[trigger] first[i]) {
            assert forall|i: int|
                0 <= i < names.len() && is_valid_for(parts.0, last) implies is_valid_for(
                parts.0,
                #[trigger] names[i],
            ) by {
                if i < first.len() {
                    assert(first[i] == names[i]);
                }
            }
        } else {
            let k = choose|k: int|
                0 <= k < first.len() && !is_valid_for(parts.0, #[trigger] first[k]);
            assert(!is_valid_for(parts.0, names[k]));
        }
        if is_name_of(first, name) {
            let k = choose|k: int| 0 <= k < first.len() && lower(#[trigger] first[k]) == name;
            assert(lower(names[k]) == name);
        }
        if is_name_of(names, name) && lower(last) != name {
            let k = choose|k: int| 0 <= k < names.len() && lower(#[trigger] names[k]) == name;
            assert(lower(first[k]) == name);
        }
    }
}

/// `name` is one of `names`, whatever their case.
pub open spec fn is_name_of(names: Seq<Seq<char>>, name: Seq<char>) -> bool {
    exists|i: int| 0 <= i < names.len() && lower(#[trigger] names[i]) == name
}

} // verus!
