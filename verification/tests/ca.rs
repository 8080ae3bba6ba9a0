use base64::Engine;
use cicache::ca::{
    authority_profile, ca_common_name, certificate_params, leaf_params, leaf_profile, pem_encode, protocols, system_bundle_paths, wrap,
    Ca, KeyUsage, Purpose, Role,
};
use std::sync::Arc;

#[test]
fn certificates_are_written_in_lines_of_64() {
    let der: Vec<u8> = (0..200u8).collect();
    let encoded = base64::engine::general_purpose::STANDARD.encode(&der);
    let pem = pem_encode(&der);
    let lines: Vec<&str> = pem.lines().collect();
    assert_eq!(lines[0], "-----BEGIN CERTIFICATE-----");
    assert_eq!(*lines.last().unwrap(), "-----END CERTIFICATE-----");
    assert_eq!(lines[1..lines.len() - 1].concat(), encoded);
    assert!(lines[1..lines.len() - 2].iter().all(|line| line.len() == 64));
    assert!(pem.ends_with('\n'));
    assert_eq!(
        pem_encode(b"abc"),
        "-----BEGIN CERTIFICATE-----\nYWJj\n-----END CERTIFICATE-----\n"
    );
    assert_eq!(wrap(""), "");
    assert_eq!(wrap(&"x".repeat(64)), format!("{}\n", "x".repeat(64)));
    assert_eq!(wrap(&"x".repeat(65)), format!("{}\nx\n", "x".repeat(64)));
}

#[test]
fn the_authority_signs_certificates() {
    let profile = authority_profile();
    assert_eq!(profile.common_name, "cicache local CA");
    assert_eq!(ca_common_name(), "cicache local CA");
    assert_eq!(profile.organization.as_deref(), Some("cicache"));
    assert!(profile.names.is_empty());
    assert_eq!(profile.role, Role::Authority);
    assert_eq!(
        profile.key_usages,
        [KeyUsage::KeyCertSign, KeyUsage::CrlSign, KeyUsage::DigitalSignature]
    );
    assert_eq!(profile.not_before, 1_577_836_800);
    assert_eq!(profile.not_after, 2_051_222_400);
}

#[test]
fn leaves_are_short_lived_server_certificates() {
    let now = 1_700_000_000;
    let profile = leaf_profile("a.example", now);
    assert_eq!(profile.common_name, "a.example");
    assert_eq!(profile.names, ["a.example"]);
    assert_eq!(profile.role, Role::Server);
    assert!(profile.authority_key_identifier);
    assert_eq!(
        profile.key_usages,
        [KeyUsage::DigitalSignature, KeyUsage::KeyEncipherment]
    );
    assert_eq!(profile.purposes, [Purpose::ServerAuth]);
    assert_eq!(profile.not_before, now - 86_400);
    assert_eq!(profile.not_after, now + 300 * 86_400);
    assert!(profile.not_after - profile.not_before <= 398 * 86_400);
}

#[test]
fn a_host_keeps_its_configuration() {
    let mut ca = Ca::generate().unwrap();
    let pem = ca.ca_pem().to_string();
    assert!(pem.starts_with("-----BEGIN CERTIFICATE-----"));
    let first = ca.server_config("a.example").unwrap();
    let second = ca.server_config("b.example").unwrap();
    let again = ca.server_config("a.example").unwrap();
    assert!(Arc::ptr_eq(&first, &again));
    assert!(!Arc::ptr_eq(&first, &second));
    assert_eq!(first.alpn_protocols, vec![b"http/1.1".to_vec()]);
    assert_eq!(protocols(), vec![b"http/1.1".to_vec()]);
    assert!(ca.server_config("127.0.0.1").is_ok());
    assert_eq!(ca.ca_pem(), pem);
}

#[test]
fn a_host_that_no_certificate_can_name_is_an_error() {
    let mut ca = Ca::generate().unwrap();
    let err = ca.server_config("bücher.example").err().unwrap();
    assert!(err.starts_with("building leaf params: "), "{err}");
}

#[test]
fn leaf_parameters_need_a_clock_and_a_name() {
    let params = leaf_params("a.example", 1_700_000_000).unwrap();
    assert_eq!(params.not_before.unix_timestamp(), 1_700_000_000 - 86_400);
    assert_eq!(params.subject_alt_names.len(), 1);
    let clock = "building leaf params: the clock is out of range";
    for now in [i64::MIN, -62_167_219_200, 253_402_300_799, i64::MAX] {
        assert_eq!(leaf_params("a.example", now).err().unwrap(), clock);
        assert_eq!(leaf_params("b\u{fc}cher.example", now).err().unwrap(), clock);
    }
    assert!(leaf_params("a.example", -62_167_219_200 + 86_400).is_ok());
    assert!(leaf_params("a.example", 253_402_300_799 - 300 * 86_400).is_ok());
    let err = leaf_params("b\u{fc}cher.example", 0).err().unwrap();
    assert!(err.starts_with("building leaf params: ") && err != clock);
}

#[test]
fn two_authorities_differ() {
    assert_ne!(Ca::generate().unwrap().ca_pem(), Ca::generate().unwrap().ca_pem());
}

#[test]
fn bundles_hold_the_real_roots_and_the_authority() {
    let ca = Ca::generate().unwrap();
    let native = vec![b"abc".to_vec(), b"def".to_vec()];
    let bundle = ca.trust_bundle(&native, 0, Some("ignored")).unwrap();
    assert_eq!(
        bundle,
        format!("{}{}{}", pem_encode(b"abc"), pem_encode(b"def"), ca.ca_pem())
    );
    let bundle = ca.trust_bundle(&[], 1, Some("roots")).unwrap();
    assert_eq!(bundle, format!("roots\n{}", ca.ca_pem()));
    let bundle = ca.trust_bundle(&[], 1, Some("roots\n")).unwrap();
    assert_eq!(bundle, format!("roots\n{}", ca.ca_pem()));
}

#[test]
fn the_authority_is_never_a_bundle_of_its_own() {
    let ca = Ca::generate().unwrap();
    let expected = "no system trust roots found (2 error(s) reading the platform store); refusing to emit a bundle containing only the generated CA";
    for system in [None, Some(""), Some("\n")] {
        assert_eq!(ca.trust_bundle(&[], 2, system), Err(expected.to_string()));
    }
}

#[test]
fn system_bundles_are_tried_in_order() {
    assert_eq!(
        system_bundle_paths(),
        [
            "/etc/ssl/certs/ca-certificates.crt",
            "/etc/pki/tls/certs/ca-bundle.crt",
            "/etc/ssl/ca-bundle.pem"
        ]
    );
}

#[test]
fn parameters_are_made_for_hosts_and_addresses() {
    for host in ["a.example", "127.0.0.1", "::1", "[::1]", "0.0.0.0.0", ""] {
        assert!(certificate_params(&leaf_profile(host, 0)).is_ok(), "{host}");
    }
    assert!(certificate_params(&leaf_profile("b\u{fc}cher.example", 0)).is_err());
    let params = certificate_params(&authority_profile()).unwrap();
    assert_eq!(params.not_before.unix_timestamp(), 1_577_836_800);
    assert!(matches!(params.is_ca, rcgen::IsCa::Ca(_)));
    assert_eq!(params.key_usages.len(), 3);
    let params = certificate_params(&leaf_profile("::0001", 1_700_000_000)).unwrap();
    assert_eq!(
        params.subject_alt_names,
        certificate_params(&leaf_profile("::1", 0)).unwrap().subject_alt_names
    );
    assert!(matches!(params.is_ca, rcgen::IsCa::NoCa));
    assert!(params.use_authority_key_identifier_extension);
    assert_eq!(params.not_after.unix_timestamp(), 1_700_000_000 + 300 * 86_400);
}

#[test]
fn a_server_presents_its_leaf_and_then_the_authority() {
    let mut ca = Ca::generate().unwrap();
    let pem: String = ca.ca_pem().lines().filter(|line| !line.starts_with('-')).collect();
    let authority = base64::engine::general_purpose::STANDARD.decode(pem).unwrap();
    assert_eq!(pem_encode(&authority), ca.ca_pem().replace('\r', ""));

    let server = ca.server_config("a.example").unwrap();
    let mut roots = rustls::RootCertStore::empty();
    roots.add(authority.clone().into()).unwrap();
    let provider = Arc::new(rustls::crypto::ring::default_provider());
    let client = rustls::ClientConfig::builder_with_provider(provider)
        .with_safe_default_protocol_versions()
        .unwrap()
        .with_root_certificates(roots)
        .with_no_client_auth();
    let mut client = client;
    client.alpn_protocols = vec![b"h2".to_vec(), b"http/1.1".to_vec()];
    let name = rustls::pki_types::ServerName::try_from("a.example").unwrap();
    let mut client = rustls::ClientConnection::new(Arc::new(client), name).unwrap();
    let mut server = rustls::ServerConnection::new(server).unwrap();
    while client.is_handshaking() || server.is_handshaking() {
        let mut wire = Vec::new();
        client.write_tls(&mut wire).unwrap();
        server.read_tls(&mut wire.as_slice()).unwrap();
        server.process_new_packets().unwrap();
        let mut wire = Vec::new();
        server.write_tls(&mut wire).unwrap();
        client.read_tls(&mut wire.as_slice()).unwrap();
        client.process_new_packets().unwrap();
    }
    let chain = client.peer_certificates().unwrap();
    assert_eq!(chain.len(), 2);
    assert_eq!(chain[1].as_ref(), authority.as_slice());
    assert_eq!(client.alpn_protocol(), Some(b"http/1.1".as_slice()));
}
