use rgate::config::WebConfig;
use rgate::sni::build_resolver;
use rgate::sni::load_parts;
use rgate::sni::SslFiles;
use rgate::tls::add_host;
use rgate::tls::certs_found;
use rgate::tls::load_certs;
use rgate::tls::load_key;
use rgate::tls::new_resolver;
use rgate::tls::KeyFormat;
use rgate::tls::PrivateKey;
use rgate::tls::TlsError;

/// Self-signed, for yunp.top and www.yunp.top.
const CERT: &str = "-----BEGIN CERTIFICATE-----
MIIBYDCCARKgAwIBAgIUVTH+nBi0jE3cjpW7riEt9j+BF2EwBQYDK2VwMBMxETAP
BgNVBAMMCHl1bnAudG9wMCAXDTI2MTExNjA5Mzc0OVoYDzIxMjYxMDIzMDkzNzQ5
WjATMREwDwYDVQQDDAh5dW5wLnRvcDAqMAUGAytlcAMhAFPcteWjdp5eutVwxxYL
MTKgx2Tm11Vpca0n552PhcMMo3YwdDAdBgNVHQ4EFgQUQs5LmxRdCU7eRtqCj3mq
wvAUer8wHwYDVR0jBBgwFoAUQs5LmxRdCU7eRtqCj3mqwvAUer8wDwYDVR0TAQH/
BAUwAwEB/zAhBgNVHREEGjAYggh5dW5wLnRvcIIMd3d3Lnl1bnAudG9wMAUGAytl
cANBAGFmB+AcRpaN7GqjhG267g7j1+wqdKCYzA53cL3TDH0gRLdz/exR40syQCVV
+goxDXXCU91Or/xCZlVquWMu2gs=
-----END CERTIFICATE-----
";

/// The PEM text of a block of data.
fn pem(label: &str, data: &[u8]) -> String {
    let digits: Vec<char> = ('A'..='Z').chain('a'..='z').chain('0'..='9').chain(['+', '/']).collect();
    let mut text = String::new();
    for chunk in data.chunks(3) {
        let mut bits: usize = 0;
        for i in 0..3 {
            bits = bits * 256 + usize::from(*chunk.get(i).unwrap_or(&0));
        }
        for i in 0..4 {
            let digit = digits[(bits >> (18 - 6 * i)) & 63];
            text.push(if i <= chunk.len() { digit } else { '=' });
        }
    }
    format!("-----BEGIN {}-----\n{}\n-----END {}-----\n", label, text, label)
}

/// An Ed25519 key that is made of a counting seed, in PKCS #8.
fn key_der() -> Vec<u8> {
    let mut der = vec![0x30, 46, 2, 1, 0, 0x30, 5, 6, 3, 0x2b, 0x65, 0x70, 4, 34, 4, 32];
    der.extend(0..32);
    der
}

/// The text of a file with that key.
fn key_pem() -> String {
    pem("PRIVATE KEY", &key_der())
}

fn config(names: &[&str]) -> WebConfig {
    let names: String = names.iter().map(|n| format!("<name value=\"{}\"/>", n)).collect();
    WebConfig::load(&format!("<web><ports http=\"1\"/><host>{}</host></web>", names)).unwrap()
}

#[test]
fn certificates_are_read() {
    let certs = load_certs(CERT.as_bytes()).unwrap();
    assert_eq!(certs.len(), 1);
    assert_eq!(certs[0][0], 0x30);
    let twice = format!("{}\n{}{}", CERT, key_pem(), CERT);
    let certs = load_certs(twice.as_bytes()).unwrap();
    assert_eq!(certs.len(), 2);
    assert_eq!(certs[0], certs[1]);
}

#[test]
fn files_without_certificates_are_rejected() {
    let error = load_certs(key_pem().as_bytes()).unwrap_err();
    assert!(matches!(error, TlsError::NoCertificates));
    assert_eq!(error.message(), "no certificates found in cert file");
    assert!(matches!(load_certs(b""), Err(TlsError::NoCertificates)));
    let error = load_certs(b"-----BEGIN CERTIFICATE-----\n").unwrap_err();
    assert!(matches!(error, TlsError::MalformedCerts));
    assert_eq!(error.message(), "malformed cert file");
    assert!(matches!(certs_found(None), Err(TlsError::MalformedCerts)));
    assert!(matches!(certs_found(Some(vec![])), Err(TlsError::NoCertificates)));
    assert_eq!(certs_found(Some(vec![vec![1]])).unwrap(), vec![vec![1]]);
}

#[test]
fn keys_are_read() {
    let key = load_key(format!("{}{}", CERT, key_pem()).as_bytes()).unwrap();
    assert_eq!(key.format, KeyFormat::Pkcs8);
    assert_eq!(key.der, key_der());
    let error = load_key(CERT.as_bytes()).unwrap_err();
    assert!(matches!(error, TlsError::NoPrivateKey));
    assert_eq!(error.message(), "no private key found in key file");
    let error = load_key(pem("PRIVATE KEY", &[1])[..28].as_bytes()).unwrap_err();
    assert!(matches!(error, TlsError::MalformedKey));
    assert_eq!(error.message(), "malformed key file");
    let key = load_key(pem("RSA PRIVATE KEY", &[1]).as_bytes()).unwrap();
    assert_eq!(key.format, KeyFormat::Pkcs1);
    assert_eq!(key.der, vec![1]);
    let key = load_key(pem("EC PRIVATE KEY", &[2]).as_bytes()).unwrap();
    assert_eq!(key.format, KeyFormat::Sec1);
    assert_eq!(key.der, vec![2]);
}

#[test]
fn all_names_of_a_host_share_its_certificate() {
    let config = config(&["Yunp.top", "www.yunp.top"]);
    let certs = load_certs(CERT.as_bytes()).unwrap();
    let key = load_key(key_pem().as_bytes()).unwrap();
    let mut resolver = new_resolver();
    assert!(!format!("{:?}", resolver).contains("yunp.top"));
    add_host(&mut resolver, &config.hosts[0], &certs, &key).unwrap();
    let shown = format!("{:?}", resolver);
    assert!(shown.contains("\"yunp.top\""));
    assert!(shown.contains("\"www.yunp.top\""));
}

#[test]
fn names_that_the_certificate_is_not_for_are_rejected() {
    let config = config(&["yunp.top", "other.org", "www.yunp.top"]);
    let certs = load_certs(CERT.as_bytes()).unwrap();
    let key = load_key(key_pem().as_bytes()).unwrap();
    let mut resolver = new_resolver();
    let error = add_host(&mut resolver, &config.hosts[0], &certs, &key).unwrap_err();
    assert_eq!(error.message(), "cannot use certificate for name other.org");
    let shown = format!("{:?}", resolver);
    assert!(shown.contains("\"yunp.top\""));
    assert!(!shown.contains("\"www.yunp.top\""));
}

#[test]
fn unsupported_keys_are_rejected() {
    let config = config(&["yunp.top"]);
    let certs = load_certs(CERT.as_bytes()).unwrap();
    let mut resolver = new_resolver();
    for format in [KeyFormat::Pkcs1, KeyFormat::Sec1, KeyFormat::Pkcs8] {
        let key = PrivateKey { format, der: vec![1, 2, 3] };
        let error = add_host(&mut resolver, &config.hosts[0], &certs, &key).unwrap_err();
        assert!(matches!(error, TlsError::UnsupportedKey(_)));
        assert!(error.message().starts_with("unsupported key: "));
    }
    assert!(!format!("{:?}", resolver).contains("yunp.top"));
}

fn files(cert: Option<&str>, key: Option<&str>) -> SslFiles {
    SslFiles {
        cert: cert.map(|text| text.as_bytes().to_vec()),
        key: key.map(|text| text.as_bytes().to_vec()),
    }
}

#[test]
fn first_fault_of_the_files_is_reported() {
    let fault = |f: SslFiles| load_parts(&f).unwrap_err().message();
    assert_eq!(fault(files(None, None)), "cannot read cert file");
    assert_eq!(fault(files(Some(&key_pem()), None)), "no certificates found in cert file");
    assert_eq!(fault(files(Some(CERT), None)), "cannot read key file");
    assert_eq!(fault(files(Some(CERT), Some(CERT))), "no private key found in key file");
    let (chain, key) = load_parts(&files(Some(CERT), Some(&key_pem()))).unwrap();
    assert_eq!(chain, load_certs(CERT.as_bytes()).unwrap());
    assert_eq!(key.der, key_der());
}

#[test]
fn every_host_with_a_certificate_is_given_it() {
    let text = r#"<web><ports http="1"/>
        <host><name value="plain.org"/></host>
        <host><name value="yunp.top"/><ssl cert="c" key="k"/></host>
        <host><name value="www.yunp.top"/><ssl cert="c" key="k"/></host></web>"#;
    let hosts = WebConfig::load(text).unwrap().hosts;
    let good = || files(Some(CERT), Some(&key_pem()));
    let resolver = build_resolver(&hosts, &vec![files(None, None), good(), good()]).unwrap();
    let shown = format!("{:?}", resolver);
    assert!(shown.contains("\"yunp.top\""));
    assert!(shown.contains("\"www.yunp.top\""));
    assert!(!shown.contains("plain.org"));

    let (i, error) =
        build_resolver(&hosts, &vec![good(), good(), files(Some(CERT), None)]).unwrap_err();
    assert_eq!(i, 2);
    assert!(matches!(error, TlsError::UnreadableKey));
    let broken = pem("EC PRIVATE KEY", &[2]);
    let (i, error) =
        build_resolver(&hosts, &vec![good(), files(Some(CERT), Some(&broken)), files(None, None)])
            .unwrap_err();
    assert_eq!(i, 1);
    assert!(matches!(error, TlsError::UnsupportedKey(_)));
}

#[test]
fn host_that_the_certificate_is_not_for_is_reported() {
    let text = r#"<web><ports http="1"/>
        <host><name value="yunp.top"/><ssl cert="c" key="k"/></host>
        <host><name value="other.org"/><ssl cert="c" key="k"/></host></web>"#;
    let hosts = WebConfig::load(text).unwrap().hosts;
    let both = vec![files(Some(CERT), Some(&key_pem())), files(Some(CERT), Some(&key_pem()))];
    let (i, error) = build_resolver(&hosts, &both).unwrap_err();
    assert_eq!(i, 1);
    assert!(matches!(error, TlsError::RejectedName(name) if name == "other.org"));
}
