//! The certificate and the key that the server shows to Mumble clients.

use vstd::prelude::*;

use rustls_pki_types::PrivateKeyDer;

verus! {

/// A private key: its bytes, in one of the forms that keys are written in.
#[derive(Debug, PartialEq, Eq)]
pub enum PrivateKey {
    Pkcs1(Vec<u8>),
    Sec1(Vec<u8>),
    Pkcs8(Vec<u8>),
    /// A form that is not known here.
    Unknown(Vec<u8>),
}

pub enum PrivateKeyModel {
    Pkcs1(Seq<u8>),
    Sec1(Seq<u8>),
    Pkcs8(Seq<u8>),
    Unknown(Seq<u8>),
}

impl View for PrivateKey {
    type V = PrivateKeyModel;

    open spec fn view(&self) -> PrivateKeyModel {
        match self {
            PrivateKey::Pkcs1(der) => PrivateKeyModel::Pkcs1(der@),
            PrivateKey::Sec1(der) => PrivateKeyModel::Sec1(der@),
            PrivateKey::Pkcs8(der) => PrivateKeyModel::Pkcs8(der@),
            PrivateKey::Unknown(der) => PrivateKeyModel::Unknown(der@),
        }
    }
}

/// What was found in a PEM file, or the reader's words for why it could not be read.
pub open spec fn found_in<T: View>(found: Result<Option<T>, String>) -> Result<
    Option<T::V>,
    Seq<char>,
> {
    match found {
        Ok(Some(item)) => Ok(Some(item@)),
        Ok(None) => Ok(None),
        Err(words) => Err(words@),
    }
}

/// The first certificate of a PEM file, or the words with which the file is refused.
pub uninterp spec fn first_certificate(pem: Seq<u8>) -> Result<Option<Seq<u8>>, Seq<char>>;

/// The first private key of a PEM file, or the words with which the file is refused.
pub uninterp spec fn first_key(pem: Seq<u8>) -> Result<Option<PrivateKeyModel>, Seq<char>>;

/// Calls `certs` of rustls-pemfile, and takes the first item: a certificate, an error
/// where a section before it cannot be read, or nothing at the end of the file. It
/// depends on the bytes alone, and has a name.
#[verifier::external_body]
fn pem_certificate(pem: &[u8]) -> (found: Result<Option<Vec<u8>>, String>)
    ensures
        found_in(found) == first_certificate(pem@),
{
    let mut reader: &[u8] = pem;
    let first = rustls_pemfile::certs(&mut reader).next();
    match first {
        None => Ok(None),
        Some(Ok(certificate)) => Ok(Some(certificate.to_vec())),
        Some(Err(error)) => Err(error.to_string()),
    }
}

/// Calls `private_key` of rustls-pemfile: the first key of any form, an error where a
/// section before it cannot be read, or nothing at the end of the file. It depends on
/// the bytes alone, and has a name.
#[verifier::external_body]
fn pem_key(pem: &[u8]) -> (found: Result<Option<PrivateKey>, String>)
    ensures
        found_in(found) == first_key(pem@),
{
    let mut reader: &[u8] = pem;
    match rustls_pemfile::private_key(&mut reader) {
        Ok(None) => Ok(None),
        Err(error) => Err(error.to_string()),
        Ok(Some(found)) => Ok(Some(match found {
            PrivateKeyDer::Pkcs1(key) => PrivateKey::Pkcs1(key.secret_pkcs1_der().to_vec()),
            PrivateKeyDer::Sec1(key) => PrivateKey::Sec1(key.secret_sec1_der().to_vec()),
            PrivateKeyDer::Pkcs8(key) => PrivateKey::Pkcs8(key.secret_pkcs8_der().to_vec()),
            key => PrivateKey::Unknown(key.secret_der().to_vec()),
        })),
    }
}

/// Why a certificate and its key could not be loaded. What the PEM reader says is kept
/// in its words.
#[derive(Debug, PartialEq, Eq)]
pub enum LoadError {
    CertificatePem(String),
    NoCertificate,
    KeyPem(String),
    NoKey,
}

/// What can be wrong with the files of an identity.
pub enum LoadFault {
    CertificatePem(Seq<char>),
    NoCertificate,
    KeyPem(Seq<char>),
    NoKey,
}

impl View for LoadError {
    type V = LoadFault;

    open spec fn view(&self) -> LoadFault {
        match self {
            LoadError::CertificatePem(words) => LoadFault::CertificatePem(words@),
            LoadError::NoCertificate => LoadFault::NoCertificate,
            LoadError::KeyPem(words) => LoadFault::KeyPem(words@),
            LoadError::NoKey => LoadFault::NoKey,
        }
    }
}

impl LoadError {
    /// The error in words, without those of the PEM reader.
    pub open spec fn text(self) -> Seq<char> {
        match self {
            LoadError::CertificatePem(_) => "decoding the Mumble certificate PEM"@,
            LoadError::NoCertificate => "the Mumble certificate PEM contains no certificate"@,
            LoadError::KeyPem(_) => "decoding the Mumble private key PEM"@,
            LoadError::NoKey => "the Mumble private key PEM contains no supported key"@,
        }
    }

    /// The error in words, without those of the PEM reader.
    pub fn message(&self) -> (message: String)
        ensures
            message@ == self.text(),
    {
        match self {
            LoadError::CertificatePem(_) => "decoding the Mumble certificate PEM".to_owned(),
            LoadError::NoCertificate =>
                "the Mumble certificate PEM contains no certificate".to_owned(),
            LoadError::KeyPem(_) => "decoding the Mumble private key PEM".to_owned(),
            LoadError::NoKey => "the Mumble private key PEM contains no supported key".to_owned(),
        }
    }

    /// What the PEM reader says, where the error is its own.
    pub fn cause(&self) -> (cause: Option<&str>)
        ensures
            match self@ {
                LoadFault::CertificatePem(words) => cause matches Some(said) && said@ == words,
                LoadFault::KeyPem(words) => cause matches Some(said) && said@ == words,
                _ => cause is None,
            },
    {
        match self {
            LoadError::CertificatePem(words) => Some(words.as_str()),
            LoadError::KeyPem(words) => Some(words.as_str()),
            _ => None,
        }
    }
}

/// What is loaded, or why it is not.
pub open spec fn loaded<T: View>(result: Result<T, LoadError>) -> Result<T::V, LoadFault> {
    match result {
        Ok(item) => Ok(item@),
        Err(error) => Err(error@),
    }
}

/// The certificate, given what the PEM reader found.
pub open spec fn certificate_read(found: Result<Option<Seq<u8>>, Seq<char>>) -> Result<
    Seq<u8>,
    LoadFault,
> {
    match found {
        Err(words) => Err(LoadFault::CertificatePem(words)),
        Ok(None) => Err(LoadFault::NoCertificate),
        Ok(Some(der)) => Ok(der),
    }
}

/// The key, given what the PEM reader found.
pub open spec fn key_read(found: Result<Option<PrivateKeyModel>, Seq<char>>) -> Result<
    PrivateKeyModel,
    LoadFault,
> {
    match found {
        Err(words) => Err(LoadFault::KeyPem(words)),
        Ok(None) => Err(LoadFault::NoKey),
        Ok(Some(key)) => Ok(key),
    }
}

/// The certificate, given what the PEM reader found: the first one has to be there and
/// be readable.
pub fn certificate_of(found: Result<Option<Vec<u8>>, String>) -> (result: Result<Vec<u8>, LoadError>)
    ensures
        loaded(result) == certificate_read(found_in(found)),
{
    match found {
        Err(words) => Err(LoadError::CertificatePem(words)),
        Ok(None) => Err(LoadError::NoCertificate),
        Ok(Some(der)) => Ok(der),
    }
}

/// The key, given what the PEM reader found: the first one has to be there and be
/// readable.
pub fn key_of(found: Result<Option<PrivateKey>, String>) -> (result: Result<PrivateKey, LoadError>)
    ensures
        loaded(result) == key_read(found_in(found)),
{
    match found {
        Err(words) => Err(LoadError::KeyPem(words)),
        Ok(None) => Err(LoadError::NoKey),
        Ok(Some(key)) => Ok(key),
    }
}

/// The certificate in a PEM file: the first one.
pub fn load_certificate(pem: &[u8]) -> (result: Result<Vec<u8>, LoadError>)
    ensures
        loaded(result) == certificate_read(first_certificate(pem@)),
{
    certificate_of(pem_certificate(pem))
}

/// The key in a PEM file: the first one, in whatever form.
pub fn load_key(pem: &[u8]) -> (result: Result<PrivateKey, LoadError>)
    ensures
        loaded(result) == key_read(first_key(pem@)),
{
    key_of(pem_key(pem))
}

/// What a file holds is loaded as it is. A file that holds none, and one that cannot be
/// read, are told apart, for a certificate and for a key.
pub proof fn what_a_file_holds_is_loaded_as_it_is(
    der: Seq<u8>,
    key: PrivateKeyModel,
    words: Seq<char>,
)
    ensures
        certificate_read(Ok(Some(der))) == Ok::<Seq<u8>, LoadFault>(der),
        certificate_read(Ok(None)) == Err::<Seq<u8>, LoadFault>(LoadFault::NoCertificate),
        certificate_read(Err(words)) == Err::<Seq<u8>, LoadFault>(
            LoadFault::CertificatePem(words),
        ),
        key_read(Ok(Some(key))) == Ok::<PrivateKeyModel, LoadFault>(key),
        key_read(Ok(None)) == Err::<PrivateKeyModel, LoadFault>(LoadFault::NoKey),
        key_read(Err(words)) == Err::<PrivateKeyModel, LoadFault>(LoadFault::KeyPem(words)),
{
}

} // verus!
