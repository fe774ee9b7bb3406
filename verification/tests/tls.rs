use std::sync::Arc;
use whistle::tls::{
    certified, configured, made_of, read_ca, self_issued, writable, CertAuthority, TlsError,
};

#[test]
fn generates_and_signs() {
    let mut ca = CertAuthority::load_or_generate(None, true).unwrap();
    assert!(ca.ca_pem().contains("BEGIN CERTIFICATE"));
    let a = ca.server_config_for("example.com").unwrap();
    let b = ca.server_config_for("example.com").unwrap();
    assert!(Arc::ptr_eq(&a, &b));
    let c = ca.server_config_for("other.com").unwrap();
    assert!(!Arc::ptr_eq(&a, &c));
    assert_eq!(a.alpn_protocols, vec![b"h2".to_vec(), b"http/1.1".to_vec()]);
}

#[test]
fn reload_uses_existing_ca() {
    let first = CertAuthority::load_or_generate(None, false).unwrap();
    let pem1 = first.ca_pem().to_string();
    let stored = (pem1.clone(), first.key_pem());
    let mut second = CertAuthority::load_or_generate(Some(stored), false).unwrap();
    let pem2 = second.ca_pem().to_string();
    assert_eq!(pem1, pem2, "重启应复用已持久化的 CA");
    assert_eq!(first.key_pem(), second.key_pem());
    let cfg = second.server_config_for("a.com").unwrap();
    assert_eq!(cfg.alpn_protocols, vec![b"http/1.1".to_vec()]);
}

#[test]
fn damaged_authority_is_refused() {
    let bad = Some(("x".to_string(), "y".to_string()));
    assert!(matches!(CertAuthority::load_or_generate(bad, false), Err(TlsError::Rcgen(_))));
    let good = CertAuthority::load_or_generate(None, false).unwrap();
    let half = Some(("x".to_string(), good.key_pem()));
    assert!(matches!(CertAuthority::load_or_generate(half, false), Err(TlsError::Rcgen(_))));
}

#[test]
fn host_that_no_certificate_can_name_is_refused() {
    let mut ca = CertAuthority::load_or_generate(None, false).unwrap();
    assert!(matches!(ca.server_config_for("ü.com"), Err(TlsError::Rcgen(_))));
    assert!(ca.server_config_for("127.0.0.1").is_ok());
}

#[test]
fn half_of_an_authority_is_refused() {
    let good = CertAuthority::load_or_generate(None, false).unwrap();
    let half = Some((good.ca_pem().to_string(), "y".to_string()));
    assert!(matches!(CertAuthority::load_or_generate(half, false), Err(TlsError::Rcgen(_))));
}

#[test]
fn failures_of_keys_and_certificates_are_handed_on() {
    let no_key = || Err(rcgen::Error::KeyGenerationUnavailable);
    let params = || rcgen::CertificateParams::new(Vec::<String>::new()).unwrap();
    let key = || rcgen::KeyPair::generate().unwrap();
    let refused = Err(rcgen::Error::KeyGenerationUnavailable);
    assert_eq!(self_issued(params(), no_key()).map(|_| ()), refused);
    let unread = |key| read_ca("x", key).map(|_| ()).unwrap_err();
    assert!(matches!(unread(no_key()), TlsError::Rcgen(rcgen::Error::KeyGenerationUnavailable)));
    assert!(matches!(unread(Ok(key())), TlsError::Rcgen(rcgen::Error::CouldNotParseCertificate)));
    assert_eq!(certified(key(), Err(rcgen::Error::RingUnspecified)).map(|_| ()), Err(rcgen::Error::RingUnspecified));
    let none = CertAuthority::of(made_of(Err(rcgen::Error::RingUnspecified)), None, true);
    assert!(matches!(none, Err(TlsError::Rcgen(rcgen::Error::RingUnspecified))));
    let bad = configured(Err(rustls::Error::NoApplicationProtocol));
    assert!(matches!(bad, Err(TlsError::Rustls(rustls::Error::NoApplicationProtocol))));
}

#[test]
fn keys_and_certificates_make_an_authority() {
    let params = rcgen::CertificateParams::new(vec!["a.com".to_string()]).unwrap();
    let made = self_issued(params, rcgen::KeyPair::generate()).unwrap();
    let pem = made.1.pem();
    let ca = CertAuthority::of(made_of(Ok(made)), None, true).unwrap();
    assert_eq!(ca.ca_pem(), pem);
    let leaf = rcgen::CertificateParams::new(vec!["b.com".to_string()]).unwrap();
    let (own, cert) = ca.issued(leaf, rcgen::KeyPair::generate()).unwrap();
    assert!(certified(own, Ok(cert)).is_ok());
    let leaf = rcgen::CertificateParams::new(vec!["b.com".to_string()]).unwrap();
    assert!(ca.issued(leaf, Err(rcgen::Error::RingUnspecified)).is_err());
}

#[test]
fn certificates_name_addresses_as_addresses() {
    let mut ca = CertAuthority::load_or_generate(None, false).unwrap();
    assert!(ca.server_config_for("::1").is_ok());
    assert!(ca.server_config_for("a-b.com").is_ok());
    let name = rcgen::CertificateParams::new(vec!["cafe.com".to_string()]).unwrap();
    let address = rcgen::CertificateParams::new(vec!["10.0.0.1".to_string()]).unwrap();
    assert!(matches!(name.subject_alt_names[0], rcgen::SanType::DnsName(_)));
    assert!(matches!(address.subject_alt_names[0], rcgen::SanType::IpAddress(_)));
}

fn plain() -> rcgen::CertificateParams {
    rcgen::CertificateParams::new(vec!["a.com".to_string()]).unwrap()
}

#[test]
fn names_that_cannot_be_written_are_told() {
    let with_type = |numbers: &[u64]| {
        let mut p = plain();
        p.distinguished_name.push(rcgen::DnType::CustomDnType(numbers.to_vec()), "x");
        writable(&p)
    };
    assert!(with_type(&[2, 999, 1]) && with_type(&[1, 39]));
    assert!(!with_type(&[1, 40]) && !with_type(&[3, 1]) && !with_type(&[1]) && !with_type(&[]));
    assert!(!with_type(&[2, 18446744073709551535]));
    let with_text = |text: &str| {
        let mut p = plain();
        let value = rcgen::DnValue::PrintableString(text.try_into().unwrap());
        p.distinguished_name.push(rcgen::DnType::OrganizationName, value);
        writable(&p)
    };
    assert!(with_text("who") && !with_text("who?"));
}

#[test]
fn extensions_that_cannot_be_written_are_told() {
    let with = |edit: &dyn Fn(&mut rcgen::CertificateParams)| {
        let mut p = plain();
        edit(&mut p);
        writable(&p)
    };
    let other = |t: Vec<u64>| rcgen::SanType::OtherName((t, "x".into()));
    assert!(with(&|p| p.subject_alt_names.push(other(vec![1, 2]))));
    assert!(!with(&|p| p.subject_alt_names.push(other(vec![4, 2]))));
    let usage = |t: Vec<u64>| rcgen::ExtendedKeyUsagePurpose::Other(t);
    assert!(with(&|p| p.extended_key_usages.push(usage(vec![1, 2]))));
    assert!(!with(&|p| p.extended_key_usages.push(usage(vec![1]))));
    let more = |t: &[u64]| rcgen::CustomExtension::from_oid_content(t, vec![5, 0]);
    assert!(with(&|p| p.custom_extensions.push(more(&[1, 2]))));
    assert!(!with(&|p| p.custom_extensions.push(more(&[0, 77]))));
    let list = |u: &str| rcgen::CrlDistributionPoint { uris: vec![u.to_string()] };
    assert!(with(&|p| p.crl_distribution_points.push(list("http://a/"))));
    assert!(!with(&|p| p.crl_distribution_points.push(list("http://ü/"))));
    let bound = |t: rcgen::GeneralSubtree| {
        Some(rcgen::NameConstraints { permitted_subtrees: Vec::new(), excluded_subtrees: vec![t] })
    };
    let dns = |s: &str| rcgen::GeneralSubtree::DnsName(s.to_string());
    assert!(with(&|p| p.name_constraints = bound(dns("a.com"))));
    assert!(!with(&|p| p.name_constraints = bound(dns("ü.com"))));
    let mut name = rcgen::DistinguishedName::new();
    name.push(rcgen::DnType::CustomDnType(vec![9, 9]), "x");
    let directory = rcgen::GeneralSubtree::DirectoryName(name);
    assert!(!with(&|p| p.name_constraints = bound(directory.clone())));
}

#[test]
fn dates_that_cannot_be_written_are_told() {
    let from = |year: i32| {
        let mut p = plain();
        p.not_before = rcgen::date_time_ymd(year, 1, 1);
        writable(&p)
    };
    assert!(from(0) && from(1949) && from(1950) && from(2049) && from(9999));
    assert!(!from(-1));
}

#[test]
fn authority_that_cannot_be_written_is_refused() {
    let key = rcgen::KeyPair::generate().unwrap();
    let mut p = plain();
    p.is_ca = rcgen::IsCa::Ca(rcgen::BasicConstraints::Unconstrained);
    p.distinguished_name.push(rcgen::DnType::CustomDnType(vec![2, 999, 1]), "x");
    let pem = p.self_signed(&key).unwrap().pem();
    let stored = Some((pem, key.serialize_pem()));
    assert!(matches!(CertAuthority::load_or_generate(stored, false), Err(TlsError::Unwritable)));
}
