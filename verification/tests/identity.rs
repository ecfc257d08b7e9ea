//! The certificate and the key of two PEM files.

use mumble_spaces::identity::{
    certificate_of, key_of, load_certificate, load_key, LoadError, PrivateKey,
};

/// A PEM section of a given kind, with three bytes in it.
fn section(kind: &str, base64: &str) -> String {
    format!("-----BEGIN {kind}-----\n{base64}\n-----END {kind}-----\n")
}

#[test]
fn the_first_certificate_of_a_file_is_taken() {
    let pem = section("PRIVATE KEY", "CQkJ")
        + &section("CERTIFICATE", "AQID")
        + &section("CERTIFICATE", "BAUG");
    assert_eq!(load_certificate(pem.as_bytes()), Ok(vec![1, 2, 3]));
}

#[test]
fn the_first_key_of_a_file_is_taken_in_its_form() {
    let certificate = section("CERTIFICATE", "AQID");
    let pkcs8 = certificate.clone() + &section("PRIVATE KEY", "BAUG");
    assert_eq!(load_key(pkcs8.as_bytes()), Ok(PrivateKey::Pkcs8(vec![4, 5, 6])));
    let pkcs1 = section("RSA PRIVATE KEY", "BwgJ") + &pkcs8;
    assert_eq!(load_key(pkcs1.as_bytes()), Ok(PrivateKey::Pkcs1(vec![7, 8, 9])));
    let sec1 = section("EC PRIVATE KEY", "AAAA") + &pkcs1;
    assert_eq!(load_key(sec1.as_bytes()), Ok(PrivateKey::Sec1(vec![0, 0, 0])));
}

#[test]
fn a_file_without_what_is_looked_for_is_refused() {
    let key = section("PRIVATE KEY", "AQID");
    let certificate = section("CERTIFICATE", "AQID");
    assert_eq!(load_certificate(key.as_bytes()), Err(LoadError::NoCertificate));
    assert_eq!(load_certificate(b""), Err(LoadError::NoCertificate));
    assert_eq!(load_key(certificate.as_bytes()), Err(LoadError::NoKey));
    assert_eq!(load_key(b"nothing of note"), Err(LoadError::NoKey));
    assert_eq!(
        LoadError::NoCertificate.message(),
        "the Mumble certificate PEM contains no certificate"
    );
    assert_eq!(
        LoadError::NoKey.message(),
        "the Mumble private key PEM contains no supported key"
    );
    assert_eq!(LoadError::NoKey.cause(), None);
}

#[test]
fn a_file_that_cannot_be_read_is_refused_in_the_words_of_its_reader() {
    let cut = "-----BEGIN CERTIFICATE-----\nAQID\n";
    let mut reader: &[u8] = cut.as_bytes();
    let words = match rustls_pemfile::certs(&mut reader).next() {
        Some(Err(error)) => error.to_string(),
        _ => panic!("the section has no end"),
    };
    let refused = load_certificate(cut.as_bytes()).expect_err("the section has no end");
    assert_eq!(refused, LoadError::CertificatePem(words.clone()));
    assert_eq!(refused.message(), "decoding the Mumble certificate PEM");
    assert_eq!(refused.cause(), Some(words.as_str()));

    let broken = section("PRIVATE KEY", "A*ID");
    let refused = load_key(broken.as_bytes()).expect_err("no base64");
    assert!(matches!(refused, LoadError::KeyPem(_)));
    assert_eq!(refused.message(), "decoding the Mumble private key PEM");
}

#[test]
fn what_was_found_decides() {
    assert_eq!(certificate_of(Ok(Some(vec![1]))), Ok(vec![1]));
    assert_eq!(certificate_of(Ok(None)), Err(LoadError::NoCertificate));
    assert_eq!(
        certificate_of(Err("no".to_owned())),
        Err(LoadError::CertificatePem("no".to_owned()))
    );
    assert_eq!(key_of(Ok(None)), Err(LoadError::NoKey));
    assert_eq!(key_of(Err("no".to_owned())), Err(LoadError::KeyPem("no".to_owned())));
}
